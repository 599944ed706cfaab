//! What the windows of the application say and offer.

use vstd::prelude::*;

use crate::account::{AccountIdentity, AccountStatus};
use crate::account_switch::PathKind;
use crate::app::{
    enabled_set, find_index, index_of, logged_out, login_prepared, refreshed_one, runtime_of,
    switch_prepared, AccountModel, AccountOrder, AppModel, CodexState, DeleteDialog,
    DesktopAccountState, DesktopModel, DesktopOrder, EditDialog, MonitorApp,
};
use crate::error::AppError;
use crate::logging::{redact, redacted};
use crate::paths::PathStyle;
use crate::rate_limits::{QuotaSnapshot, QuotaWindow, TokenUsageSummary};
use crate::storage::{Storage, ThemePreference};
use crate::text::{
    begins, decimal, decimal_text, digits, digits_text, ends, holds, same_text, stands_at, text_of,
    texts,
};
use crate::time::{countdown, countdown_words, is_stale, minutes_between, seconds_between, Timestamp};

verus! {

broadcast use vstd::std_specs::hash::group_hash_axioms;

/// A colour: red, green and blue, or the weak colour of texts.
#[derive(Debug, Clone, Copy, PartialEq, Eq, Structural)]
pub enum Shade {
    Rgb(u8, u8, u8),
    Weak,
}

/// The name of a plan.
pub open spec fn plan_words(plan: Option<Seq<char>>) -> Seq<char> {
    match plan {
        None => "未提供"@,
        Some(p) => if p == "plus"@ {
            "ChatGPT Plus"@
        } else if p == "pro"@ {
            "ChatGPT Pro"@
        } else if p == "team"@ {
            "ChatGPT Team"@
        } else if p == "business"@ || p == "self_serve_business_usage_based"@ {
            "ChatGPT Business"@
        } else if p == "enterprise"@ || p == "enterprise_cbp_usage_based"@ {
            "ChatGPT Enterprise"@
        } else if p == "edu"@ {
            "ChatGPT Edu"@
        } else if p == "free"@ {
            "Free"@
        } else if p == "go"@ {
            "Go"@
        } else if p == "prolite"@ || p == "self_serve_business_prolite"@ {
            "Pro Lite"@
        } else {
            "未知套餐"@
        },
    }
}

/// The name of a plan.
pub fn plan_label(plan: Option<&str>) -> (r: &str)
    ensures
        r@ == plan_words(
            match plan {
                Some(p) => Some(p@),
                None => None,
            },
        ),
{
    match plan {
        None => "未提供",
        Some(p) => if same_text(p, "plus") {
            "ChatGPT Plus"
        } else if same_text(p, "pro") {
            "ChatGPT Pro"
        } else if same_text(p, "team") {
            "ChatGPT Team"
        } else if same_text(p, "business") || same_text(p, "self_serve_business_usage_based") {
            "ChatGPT Business"
        } else if same_text(p, "enterprise") || same_text(p, "enterprise_cbp_usage_based") {
            "ChatGPT Enterprise"
        } else if same_text(p, "edu") {
            "ChatGPT Edu"
        } else if same_text(p, "free") {
            "Free"
        } else if same_text(p, "go") {
            "Go"
        } else if same_text(p, "prolite") || same_text(p, "self_serve_business_prolite") {
            "Pro Lite"
        } else {
            "未知套餐"
        },
    }
}

/// The colour of a status.
pub open spec fn status_shade(status: AccountStatus) -> Shade {
    match status {
        AccountStatus::Success => Shade::Rgb(65, 175, 115),
        AccountStatus::Querying(_) => Shade::Rgb(95, 150, 225),
        AccountStatus::Idle => Shade::Weak,
        AccountStatus::NotLoggedIn => Shade::Rgb(220, 155, 65),
        _ => Shade::Rgb(220, 105, 85),
    }
}

/// The colour of a status.
pub fn status_color(status: &AccountStatus) -> (r: Shade)
    ensures
        r == status_shade(*status),
{
    match status {
        AccountStatus::Success => Shade::Rgb(65, 175, 115),
        AccountStatus::Querying(_) => Shade::Rgb(95, 150, 225),
        AccountStatus::Idle => Shade::Weak,
        AccountStatus::NotLoggedIn => Shade::Rgb(220, 155, 65),
        _ => Shade::Rgb(220, 105, 85),
    }
}

/// The colours of the banner: inside and at the edge.
pub fn banner_colors(state: &CodexState) -> (r: (Shade, Shade))
    ensures
        r == (match *state {
            CodexState::Available(_) => (Shade::Rgb(35, 105, 75), Shade::Rgb(70, 170, 115)),
            CodexState::Detecting => (Shade::Rgb(70, 80, 105), Shade::Rgb(120, 135, 175)),
            CodexState::Unavailable { summary, diagnostic } => (
                Shade::Rgb(120, 65, 55),
                Shade::Rgb(200, 100, 85),
            ),
        }),
{
    match state {
        CodexState::Available(_) => (Shade::Rgb(35, 105, 75), Shade::Rgb(70, 170, 115)),
        CodexState::Detecting => (Shade::Rgb(70, 80, 105), Shade::Rgb(120, 135, 175)),
        CodexState::Unavailable { .. } => (Shade::Rgb(120, 65, 55), Shade::Rgb(200, 100, 85)),
    }
}

/// The name of a choice of colours.
pub fn theme_label(theme: ThemePreference) -> (r: &'static str)
    ensures
        r@ == (match theme {
            ThemePreference::System => "跟随系统"@,
            ThemePreference::Light => "浅色"@,
            ThemePreference::Dark => "深色"@,
        }),
{
    match theme {
        ThemePreference::System => "跟随系统",
        ThemePreference::Light => "浅色",
        ThemePreference::Dark => "深色",
    }
}

/// A line with or without a sign that work is going on.
#[derive(Debug, PartialEq, Eq)]
pub struct Line {
    pub working: bool,
    pub words: String,
}

/// How many accounts of a list are worked on.
pub open spec fn count_active(accounts: Seq<AccountModel>, active: Seq<u128>) -> nat
    decreases accounts.len(),
{
    if accounts.len() == 0 {
        0
    } else {
        count_active(accounts.drop_last(), active) + (if active.contains(accounts.last().id) {
            1nat
        } else {
            0nat
        })
    }
}

/// The line below the title.
pub open spec fn progress_words(app: AppModel, refreshed: Option<Seq<char>>) -> (bool, Seq<char>) {
    if app.desktop_operation matches Some(crate::worker::DesktopOperation::Switch(_)) {
        (true, "正在安全切换桌面应用账号（凭据替换阶段不可取消）"@)
    } else if count_active(app.accounts, app.active) > 0 {
        (
            true,
            "正在处理 "@ + digits(count_active(app.accounts, app.active))
                + " 个账号（刷新全部时依次查询）"@,
        )
    } else {
        match refreshed {
            Some(time) => (false, "最后刷新："@ + time),
            None => (false, "尚未刷新"@),
        }
    }
}

/// What the top of the window offers.
#[derive(Debug, PartialEq, Eq)]
pub struct Header {
    pub can_open_settings: bool,
    pub can_add: bool,
    pub can_refresh: bool,
    pub can_cancel: bool,
}

/// The name of an account, or a word for one that is not kept.
pub open spec fn name_or(app: AppModel, id: u128, other: Seq<char>) -> Seq<char> {
    match index_of(app.accounts, id) {
        Some(i) => app.accounts[i].display_name,
        None => other,
    }
}

/// What the banner says of the desktop application, where anything.
pub open spec fn desktop_words(app: AppModel) -> Option<(bool, Seq<char>)> {
    if !app.settings.desktop_switch_enabled {
        None
    } else {
        match app.desktop {
            DesktopModel::Managed(id) => Some(
                (false, "桌面账号："@ + name_or(app, id, "已管理账号"@)),
            ),
            DesktopModel::Checking => Some((true, "正在验证桌面账号"@)),
            DesktopModel::Unmanaged => Some((false, "⚠ 桌面账号未受本应用管理"@)),
            DesktopModel::Missing => Some((false, "桌面应用尚未登录"@)),
            DesktopModel::Error(summary) => Some(
                (false, "⚠ 桌面账号验证失败："@ + summary),
            ),
            DesktopModel::Disabled => None,
        }
    }
}

/// What a message says; a diagnosis alone has a title in its place.
pub open spec fn message_words(app: AppModel) -> Option<Seq<char>> {
    match (app.message, app.diagnostic) {
        (Some(words), _) => Some(words),
        (None, Some(_)) => Some("诊断信息"@),
        (None, None) => None,
    }
}

/// What a card offers to do with its account.
#[derive(Debug, PartialEq, Eq)]
pub enum CardActions {
    /// The account is worked on.
    Cancel,
    /// Something else is worked on.
    Locked,
    Open {
        can_refresh: bool,
        login: &'static str,
        can_switch: bool,
        switch: &'static str,
        hint: &'static str,
    },
}

/// What a card offers to do, with texts as such.
pub enum ActionsModel {
    Cancel,
    Locked,
    Open {
        can_refresh: bool,
        login: Seq<char>,
        can_switch: bool,
        switch: Seq<char>,
        hint: Seq<char>,
    },
}

impl CardActions {
    /// What the card offers, with texts as such.
    pub open spec fn view(self) -> ActionsModel {
        match self {
            CardActions::Cancel => ActionsModel::Cancel,
            CardActions::Locked => ActionsModel::Locked,
            CardActions::Open { can_refresh, login, can_switch, switch, hint } => ActionsModel::Open {
                can_refresh,
                login: login@,
                can_switch,
                switch: switch@,
                hint: hint@,
            },
        }
    }
}

/// What the card of an account offers: while it is worked on, to stop that;
/// while something else is, nothing; otherwise all, where a switch needs the
/// feature to be on, a query that succeeded, credentials, and another account
/// in the desktop application.
pub open spec fn actions_for(app: AppModel, i: int, has_credentials: bool) -> ActionsModel {
    let account = app.accounts[i];
    let current = app.desktop == DesktopModel::Managed(account.id);
    if app.active.contains(account.id) {
        ActionsModel::Cancel
    } else if app.is_busy() {
        ActionsModel::Locked
    } else {
        ActionsModel::Open {
            can_refresh: account.enabled && app.codex_state is Available,
            login: if account.last_success is Some {
                "浏览器重新登录"@
            } else {
                "浏览器登录"@
            },
            can_switch: app.settings.desktop_switch_enabled && account.last_success is Some
                && has_credentials && !current,
            switch: if current {
                "当前已是该账号"@
            } else {
                "切换到桌面应用"@
            },
            hint: if app.settings.desktop_switch_enabled {
                "将安全关闭 Codex 桌面宿主、切换本机凭据并验证账号"@
            } else {
                "请先在设置中启用桌面账号切换"@
            },
        }
    }
}

/// The window of a login.
#[derive(Debug, PartialEq, Eq)]
pub struct LoginWindow {
    pub title: String,
    pub url: String,
    /// The code to enter, for a login by device code.
    pub code: Option<String>,
}

/// What the user asks for at a card.
#[derive(Debug, PartialEq, Eq)]
pub enum UiAction {
    Refresh(u128),
    Login(u128, bool),
    Logout(u128),
    Cancel(u128),
    Rename(u128, String),
    Delete(u128),
    SetEnabled(u128, bool),
    SwitchDesktop(u128),
}

/// What is to be done for the user.
#[derive(Debug, PartialEq, Eq)]
pub enum Command {
    Nothing,
    Save,
    Refresh(AccountOrder),
    Login(AccountOrder, bool),
    Logout(AccountOrder),
    Cancel(u128),
    Switch(DesktopOrder),
}

/// Whether a path leads to credentials in an ordinary file.
pub fn has_ordinary_auth_file(kind: &PathKind) -> (r: bool)
    ensures
        r == (*kind is File),
{
    match kind {
        PathKind::File => true,
        _ => false,
    }
}

impl MonitorApp {
    /// What the top of the window offers.
    pub fn header(&self) -> (r: Header)
        ensures
            r.can_open_settings == !self@.is_busy(),
            r.can_add == !self@.is_busy(),
            r.can_refresh == (self@.codex_state is Available && self@.accounts.len() > 0
                && !self@.is_busy()),
            r.can_cancel == (self@.is_busy() && !self.worker.is_switching()),
    {
        let busy = self.worker.any_active();
        let available = match &self.codex_state {
            CodexState::Available(_) => true,
            _ => false,
        };
        Header {
            can_open_settings: !busy,
            can_add: !busy,
            can_refresh: available && self.config.accounts.len() > 0 && !busy,
            can_cancel: busy && !self.worker.desktop_switch_active(),
        }
    }

    fn count_working(&self) -> (r: usize)
        ensures
            r == count_active(self@.accounts, self@.active),
    {
        let ghost all = self@.accounts;
        let mut count: usize = 0;
        let mut i: usize = 0;
        assert(all.take(0) =~= Seq::empty());
        while i < self.config.accounts.len()
            invariant
                all == self@.accounts,
                i <= all.len(),
                count <= i,
                count == count_active(all.take(i as int), self@.active),
            decreases all.len() - i,
        {
            assert(all.take(i + 1).drop_last() =~= all.take(i as int));
            assert(all.take(i + 1).last() == all[i as int]);
            if self.worker.is_active(self.config.accounts[i].id) {
                count = count + 1;
            }
            i = i + 1;
        }
        assert(all.take(i as int) =~= all);
        count
    }

    /// The line below the title; `refreshed` is the time of the last refresh in
    /// the user's time zone.
    pub fn progress_line(&self, refreshed: &Option<String>) -> (r: Line)
        ensures
            (r.working, r.words@) == progress_words(self@, text_of(*refreshed)),
    {
        if self.worker.desktop_switch_active() {
            return Line {
                working: true,
                words: "正在安全切换桌面应用账号（凭据替换阶段不可取消）".to_owned(),
            };
        }
        let count: usize = self.count_working();
        if count > 0 {
            let mut words = "正在处理 ".to_owned();
            words.append(digits_text(count as u128).as_str());
            words.append(" 个账号（刷新全部时依次查询）");
            return Line { working: true, words };
        }
        match refreshed {
            Some(time) => {
                let mut words = "最后刷新：".to_owned();
                words.append(time.as_str());
                Line { working: false, words }
            },
            None => Line { working: false, words: "尚未刷新".to_owned() },
        }
    }

    fn name_or_else(&self, id: u128, other: &str) -> (r: String)
        ensures
            r@ == name_or(self@, id, other@),
    {
        match find_index(&self.config.accounts, id) {
            Some(i) => self.config.accounts[i].display_name.clone(),
            None => other.to_owned(),
        }
    }

    /// What the banner says of the desktop application.
    pub fn desktop_line(&self) -> (r: Option<Line>)
        ensures
            (match r {
                Some(line) => Some((line.working, line.words@)),
                None => None,
            }) == desktop_words(self@),
    {
        if !self.config.settings.desktop_switch_enabled {
            return None;
        }
        match &self.desktop_account_state {
            DesktopAccountState::Managed(id) => {
                let mut words = "桌面账号：".to_owned();
                words.append(self.name_or_else(*id, "已管理账号").as_str());
                Some(Line { working: false, words })
            },
            DesktopAccountState::Checking => Some(
                Line { working: true, words: "正在验证桌面账号".to_owned() },
            ),
            DesktopAccountState::Unmanaged => Some(
                Line { working: false, words: "⚠ 桌面账号未受本应用管理".to_owned() },
            ),
            DesktopAccountState::Missing => Some(
                Line { working: false, words: "桌面应用尚未登录".to_owned() },
            ),
            DesktopAccountState::Error(summary) => {
                let mut words = "⚠ 桌面账号验证失败：".to_owned();
                words.append(summary.as_str());
                Some(Line { working: false, words })
            },
            DesktopAccountState::Disabled => None,
        }
    }

    /// Shows why there is no program of the service.
    pub fn show_detection_diagnostic(&mut self)
        ensures
            final(self)@ == (match old(self)@.codex_state {
                CodexState::Unavailable { summary, diagnostic } => AppModel {
                    diagnostic: Some(diagnostic@),
                    ..old(self)@
                },
                _ => old(self)@,
            }),
    {
        let words = match &self.codex_state {
            CodexState::Unavailable { summary, diagnostic } => Some(diagnostic.clone()),
            _ => None,
        };
        if words.is_some() {
            self.global_diagnostic = words;
        }
    }

    /// What a message says, where there is one.
    pub fn message_line(&self) -> (r: Option<String>)
        ensures
            text_of(r) == message_words(self@),
    {
        match &self.global_message {
            Some(words) => Some(words.clone()),
            None => if self.global_diagnostic.is_some() {
                Some("诊断信息".to_owned())
            } else {
                None
            },
        }
    }

    /// Closes the message.
    pub fn dismiss_message(&mut self)
        ensures
            final(self)@ == (AppModel { message: None, diagnostic: None, ..old(self)@ }),
            message_words(final(self)@) is None,
    {
        self.global_message = None;
        self.global_diagnostic = None;
    }

    /// Whether the desktop application is on an account.
    pub fn is_current_desktop(&self, id: u128) -> (r: bool)
        ensures
            r == (self@.desktop == DesktopModel::Managed(id)),
    {
        match &self.desktop_account_state {
            DesktopAccountState::Managed(current) => *current == id,
            _ => false,
        }
    }

    /// What the card of the account at a place offers.
    pub fn card_actions(&self, i: usize, has_credentials: bool) -> (r: CardActions)
        requires
            i < self.config.accounts@.len(),
        ensures
            r@ == actions_for(self@, i as int, has_credentials),
    {
        let account = &self.config.accounts[i];
        assert(self@.accounts[i as int].id == account.id);
        if self.worker.is_active(account.id) {
            return CardActions::Cancel;
        }
        if self.worker.any_active() {
            return CardActions::Locked;
        }
        let available = match &self.codex_state {
            CodexState::Available(_) => true,
            _ => false,
        };
        let current = self.is_current_desktop(account.id);
        let queried = account.last_success.is_some();
        CardActions::Open {
            can_refresh: account.enabled && available,
            login: if queried {
                "浏览器重新登录"
            } else {
                "浏览器登录"
            },
            can_switch: self.config.settings.desktop_switch_enabled && queried && has_credentials
                && !current,
            switch: if current {
                "当前已是该账号"
            } else {
                "切换到桌面应用"
            },
            hint: if self.config.settings.desktop_switch_enabled {
                "将安全关闭 Codex 桌面宿主、切换本机凭据并验证账号"
            } else {
                "请先在设置中启用桌面账号切换"
            },
        }
    }

    /// The window of the login of an account, where one is waited for.
    pub fn login_window(&self, id: u128) -> (r: Option<LoginWindow>)
        ensures
            match runtime_of(self@, id).login_challenge {
                None => r is None,
                Some(challenge) => {
                    &&& r matches Some(window)
                    &&& window.title@ == "OpenAI 官方登录 · "@ + name_or(self@, id, "账号"@)
                    &&& window.url@ == challenge.url@
                    &&& text_of(window.code) == (if challenge.device_code {
                        match challenge.user_code {
                            Some(code) => Some(code@),
                            None => Some("未提供"@),
                        }
                    } else {
                        None
                    })
                },
            },
    {
        match self.runtimes.get(&id) {
            None => None,
            Some(runtime) => {
                assert(runtime_of(self@, id) == runtime@);
                match &runtime.login_challenge {
                    None => None,
                    Some(challenge) => {
                        let mut title = "OpenAI 官方登录 · ".to_owned();
                        title.append(self.name_or_else(id, "账号").as_str());
                        let code = if challenge.device_code {
                            match &challenge.user_code {
                                Some(code) => Some(code.clone()),
                                None => Some("未提供".to_owned()),
                            }
                        } else {
                            None
                        };
                        Some(LoginWindow { title, url: challenge.url.clone(), code })
                    },
                }
            },
        }
    }

    /// Says that the page of a login could not be opened again.
    pub fn note_browser_failure(&mut self, detail: &str)
        ensures
            final(self)@ == (AppModel {
                message: Some("无法自动打开浏览器，请复制链接手动打开"@),
                diagnostic: Some(redacted(detail@)),
                ..old(self)@
            }),
    {
        self.global_message = Some("无法自动打开浏览器，请复制链接手动打开".to_owned());
        self.global_diagnostic = Some(redact(detail));
    }
}

/// What the dialog in which an account is deleted asks and warns of.
#[derive(Debug, PartialEq, Eq)]
pub struct DeleteQuestion {
    pub question: String,
    pub consequence: String,
}

/// What deleting the account of the open dialog asks; nothing where the account
/// is not kept any more.
pub fn delete_question(app: &MonitorApp, dialog: &DeleteDialog) -> (r: Option<DeleteQuestion>)
    ensures
        match index_of(app@.accounts, dialog.account_id) {
            None => r is None,
            Some(i) => {
                &&& r matches Some(q)
                &&& q.question@ == "要删除“"@ + app@.accounts[i].display_name
                    + "”的本地配置吗？"@
                &&& q.consequence@ == (if dialog.delete_credentials {
                    "将永久删除："@ + app@.accounts[i].state_dir
                } else {
                    "账号目录会保留，可由你稍后手动删除。"@
                })
            },
        },
{
    match find_index(&app.config.accounts, dialog.account_id) {
        None => None,
        Some(i) => {
            let account = &app.config.accounts[i];
            let mut question = "要删除“".to_owned();
            question.append(account.display_name.as_str());
            question.append("”的本地配置吗？");
            let consequence = if dialog.delete_credentials {
                let mut words = "将永久删除：".to_owned();
                words.append(account.state_dir.as_str());
                words
            } else {
                "账号目录会保留，可由你稍后手动删除。".to_owned()
            };
            Some(DeleteQuestion { question, consequence })
        },
    }
}

/// What a card says of the address of its account.
#[derive(Debug, PartialEq, Eq)]
pub enum AddressLine {
    /// The address, which can be copied.
    Full(String),
    /// Words in its place.
    Words(String),
}

/// The full address of an account, words on the masked one of an older cache, or
/// words on none.
pub fn address_line(identity: &AccountIdentity) -> (r: AddressLine)
    ensures
        match (identity.email, identity.masked_email) {
            (Some(email), _) => r matches AddressLine::Full(s) && s@ == email@,
            (None, Some(masked)) => r matches AddressLine::Words(s) && s@ == "邮箱账号："@ + masked@
                + "（旧缓存，刷新后显示完整邮箱）"@,
            (None, None) => r matches AddressLine::Words(s) && s@ == "邮箱账号：官方未提供"@,
        },
{
    match &identity.email {
        Some(email) => AddressLine::Full(email.clone()),
        None => match &identity.masked_email {
            Some(masked) => {
                let mut words = "邮箱账号：".to_owned();
                words.append(masked.as_str());
                words.append("（旧缓存，刷新后显示完整邮箱）");
                AddressLine::Words(words)
            },
            None => AddressLine::Words("邮箱账号：官方未提供".to_owned()),
        },
    }
}

/// What a card says of the plan of its account.
pub fn plan_line(identity: &AccountIdentity) -> (r: String)
    ensures
        r@ == "套餐："@ + plan_words(text_of(identity.plan_type)),
{
    let mut words = "套餐：".to_owned();
    match &identity.plan_type {
        Some(plan) => words.append(plan_label(Some(plan.as_str()))),
        None => words.append(plan_label(None)),
    }
    words
}

/// What a card says of the age of what it shows.
#[derive(Debug, PartialEq, Eq)]
pub struct CacheLine {
    pub stale: bool,
    pub words: String,
}

/// What a card says of the age of what it shows; `local` is the time of the
/// query in the user's time zone.
pub fn cache_line(queried_at: Timestamp, now: Timestamp, stale_after_minutes: i64, local: &str) -> (r:
    CacheLine)
    ensures
        r.stale == (minutes_between(queried_at, now) >= stale_after_minutes),
        now.total() >= queried_at.total() && stale_after_minutes >= 0 ==> (r.stale <==> now.total()
            - queried_at.total() >= stale_after_minutes * 60_000_000_000),
        r.words@ == (if r.stale {
            "⚠ 缓存数据 · 已过期"@
        } else {
            "缓存数据"@
        }) + " · "@ + local@,
{
    let stale = is_stale(queried_at, now, stale_after_minutes);
    let mut words = if stale {
        "⚠ 缓存数据 · 已过期".to_owned()
    } else {
        "缓存数据".to_owned()
    };
    words.append(" · ");
    words.append(local);
    CacheLine { stale, words }
}

/// A text if something holds, as a list.
pub open spec fn when(holds: bool, words: Seq<char>) -> Seq<Seq<char>> {
    if holds {
        seq![words]
    } else {
        Seq::empty()
    }
}

/// The warnings of a quota.
pub open spec fn quota_warnings(quota: QuotaSnapshot) -> Seq<Seq<char>> {
    when(quota.rate_limit_reached_type is Some, "⚠ 官方服务标记该账号已达到额度限制"@) + when(
        quota.spend_control_reached == Some(true),
        "⚠ 已达到工作区用量控制上限"@,
    )
}

/// The warnings of a quota: that a limit was reached, and that spending was stopped.
pub fn quota_alarms(quota: &QuotaSnapshot) -> (r: Vec<String>)
    ensures
        texts(r@) == quota_warnings(*quota),
{
    let mut out: Vec<String> = Vec::new();
    if quota.rate_limit_reached_type.is_some() {
        out.push("⚠ 官方服务标记该账号已达到额度限制".to_owned());
    }
    if let Some(true) = quota.spend_control_reached {
        out.push("⚠ 已达到工作区用量控制上限".to_owned());
    }
    assert(texts(out@) =~= quota_warnings(*quota));
    out
}

/// How many resets are left, where the service says so.
pub fn credits_line(quota: &QuotaSnapshot) -> (r: Option<String>)
    ensures
        text_of(r) == (match quota.reset_credits_available {
            Some(count) => Some("官方可用额度重置次数："@ + decimal(count as int)),
            None => None,
        }),
{
    match quota.reset_credits_available {
        Some(count) => {
            let mut words = "官方可用额度重置次数：".to_owned();
            words.append(decimal_text(count).as_str());
            Some(words)
        },
        None => None,
    }
}

/// What is said of token activity; something is always said.
pub open spec fn usage_words(usage: TokenUsageSummary) -> Seq<Seq<char>> {
    (match usage.lifetime_tokens {
        Some(tokens) => seq!["累计 Token 活动："@ + decimal(tokens as int)],
        None => Seq::empty(),
    }) + (match usage.current_streak_days {
        Some(days) => seq!["当前连续使用："@ + decimal(days as int) + " 天"@],
        None => Seq::empty(),
    }) + when(
        usage.lifetime_tokens is None && usage.current_streak_days is None,
        "官方未返回可展示的摘要字段。"@,
    )
}

/// What is said of token activity.
pub fn usage_lines(usage: &TokenUsageSummary) -> (r: Vec<String>)
    ensures
        texts(r@) == usage_words(*usage),
        r@.len() > 0,
{
    let mut out: Vec<String> = Vec::new();
    if let Some(tokens) = usage.lifetime_tokens {
        let mut words = "累计 Token 活动：".to_owned();
        words.append(decimal_text(tokens).as_str());
        out.push(words);
    }
    if let Some(days) = usage.current_streak_days {
        let mut words = "当前连续使用：".to_owned();
        words.append(decimal_text(days).as_str());
        words.append(" 天");
        out.push(words);
    }
    if usage.lifetime_tokens.is_none() && usage.current_streak_days.is_none() {
        out.push("官方未返回可展示的摘要字段。".to_owned());
    }
    assert(texts(out@) =~= usage_words(*usage));
    out
}

/// The official name of a window, where it has one.
pub fn official_name_line(window: &QuotaWindow) -> (r: Option<String>)
    ensures
        text_of(r) == (match window.official_name {
            Some(name) => Some("官方名称："@ + name@),
            None => None,
        }),
{
    match &window.official_name {
        Some(name) => {
            let mut words = "官方名称：".to_owned();
            words.append(name.as_str());
            Some(words)
        },
        None => None,
    }
}

/// The length of a window, where it is known.
pub fn duration_line(window: &QuotaWindow) -> (r: Option<String>)
    ensures
        text_of(r) == (match window.window_duration_minutes {
            Some(minutes) => Some("窗口 "@ + decimal(minutes as int) + " 分钟"@),
            None => None,
        }),
{
    match window.window_duration_minutes {
        Some(minutes) => {
            let mut words = "窗口 ".to_owned();
            words.append(decimal_text(minutes).as_str());
            words.append(" 分钟");
            Some(words)
        },
        None => None,
    }
}

/// When a window is reset, where that is known; `local` is that time in the
/// user's time zone.
pub fn reset_line(window: &QuotaWindow, now: Timestamp, local: &str) -> (r: Option<String>)
    ensures
        text_of(r) == (match window.resets_at {
            Some(reset) => Some(
                "重置："@ + local@ + "（"@ + countdown_words(seconds_between(now, reset))
                    + "）"@,
            ),
            None => None,
        }),
{
    match window.resets_at {
        Some(reset) => {
            let mut words = "重置：".to_owned();
            words.append(local);
            words.append("（");
            words.append(countdown(reset, now).as_str());
            words.append("）");
            Some(words)
        },
        None => None,
    }
}

/// Where the data of the application are, for the foot of the window.
pub fn data_line(storage: &Storage) -> (r: String)
    ensures
        r@ == "数据："@ + storage.root@,
{
    let mut words = "数据：".to_owned();
    words.append(storage.root.as_str());
    words
}

/// Whether an action of the user was taken as it should be.
pub open spec fn action_taken(
    before: MonitorApp,
    after: MonitorApp,
    action: UiAction,
    style: PathStyle,
    user_home: Option<String>,
    r: Result<Command, AppError>,
) -> bool {
    match action {
        UiAction::Refresh(id) => match r {
            Ok(Command::Refresh(order)) => refreshed_one(before@, after@, id, Some(order)),
            Ok(Command::Nothing) => refreshed_one(before@, after@, id, None),
            _ => false,
        },
        UiAction::Login(id, device_code) => match r {
            Ok(Command::Login(order, by_code)) => by_code == device_code && login_prepared(
                before,
                after@,
                id,
                Ok(Some(order)),
            ),
            Ok(Command::Nothing) => login_prepared(before, after@, id, Ok(None)),
            Err(e) => login_prepared(before, after@, id, Err(e)),
            _ => false,
        },
        UiAction::Logout(id) => match r {
            Ok(Command::Logout(order)) => logged_out(before@, after@, id, Some(order)),
            Ok(Command::Nothing) => logged_out(before@, after@, id, None),
            _ => false,
        },
        UiAction::Cancel(id) => after@ == before@ && (r matches Ok(Command::Cancel(other)) && other
            == id),
        UiAction::Rename(id, name) => r matches Ok(Command::Nothing) && after@ == (AppModel {
            edit_dialog: Some((id, name@)),
            ..before@
        }),
        UiAction::Delete(id) => r matches Ok(Command::Nothing) && after@ == (AppModel {
            delete_dialog: Some((id, false)),
            ..before@
        }),
        UiAction::SetEnabled(id, enabled) => match r {
            Ok(Command::Save) => enabled_set(before@, after@, id, enabled, true),
            Ok(Command::Nothing) => enabled_set(before@, after@, id, enabled, false),
            _ => false,
        },
        UiAction::SwitchDesktop(id) => match r {
            Ok(Command::Switch(order)) => switch_prepared(
                before,
                after@,
                id,
                style,
                user_home,
                Ok(Some(order)),
            ),
            Ok(Command::Nothing) => switch_prepared(
                before,
                after@,
                id,
                style,
                user_home,
                Ok(None),
            ),
            Err(e) => switch_prepared(before, after@, id, style, user_home, Err(e)),
            _ => false,
        },
    }
}

/// Takes an action of the user; gives what is to be done for it.
pub fn apply_action(
    app: &mut MonitorApp,
    action: UiAction,
    style: PathStyle,
    user_home: &Option<String>,
) -> (r: Result<Command, AppError>)
    requires
        old(app).storage matches Some(storage) ==> storage.well_formed(),
    ensures
        action_taken(*old(app), *final(app), action, style, *user_home, r),
{
    match action {
        UiAction::Refresh(id) => match app.refresh_one(id) {
            Some(order) => Ok(Command::Refresh(order)),
            None => Ok(Command::Nothing),
        },
        UiAction::Login(id, device_code) => match app.begin_login(id) {
            Ok(Some(order)) => Ok(Command::Login(order, device_code)),
            Ok(None) => Ok(Command::Nothing),
            Err(e) => Err(e),
        },
        UiAction::Logout(id) => match app.begin_logout(id) {
            Some(order) => Ok(Command::Logout(order)),
            None => Ok(Command::Nothing),
        },
        UiAction::Cancel(id) => Ok(Command::Cancel(id)),
        UiAction::Rename(account_id, name) => {
            app.edit_dialog = Some(EditDialog { account_id, name });
            Ok(Command::Nothing)
        },
        UiAction::Delete(account_id) => {
            app.delete_dialog = Some(DeleteDialog { account_id, delete_credentials: false });
            Ok(Command::Nothing)
        },
        UiAction::SetEnabled(id, enabled) => if app.set_account_enabled(id, enabled) {
            Ok(Command::Save)
        } else {
            Ok(Command::Nothing)
        },
        UiAction::SwitchDesktop(id) => match app.begin_desktop_switch(id, style, user_home) {
            Ok(Some(order)) => Ok(Command::Switch(order)),
            Ok(None) => Ok(Command::Nothing),
            Err(e) => Err(e),
        },
    }
}

/// A card never offers a switch to the account that the desktop application is
/// on, nor one while anything is worked on.
pub proof fn lemma_switch_is_offered_with_reason(app: AppModel, i: int, has_credentials: bool)
    ensures
        match actions_for(app, i, has_credentials) {
            ActionsModel::Open { can_refresh, login, can_switch, switch, hint } => can_switch
                ==> app.settings.desktop_switch_enabled && has_credentials && !app.is_busy()
                && app.desktop != DesktopModel::Managed(app.accounts[i].id),
            _ => true,
        },
{
}

/// What a card offers follows from what is going on: stopping exactly while its
/// account is worked on, nothing exactly while only other work is going on, and else a
/// refresh exactly for an enabled account with a program of the service, and a switch
/// exactly where that is on, for an account that was queried, has credentials and is
/// not in the desktop application already.
pub proof fn lemma_card_offers(app: AppModel, i: int, has_credentials: bool)
    ensures
        ({
            let account = app.accounts[i];
            let own = app.active.contains(account.id);
            let busy = app.active.len() > 0 || app.desktop_operation is Some;
            let actions = actions_for(app, i, has_credentials);
            &&& actions is Cancel <==> own
            &&& actions is Locked <==> !own && busy
            &&& actions matches ActionsModel::Open {
                can_refresh,
                login,
                can_switch,
                switch,
                hint,
            } ==> {
                &&& can_refresh <==> account.enabled && app.codex_state is Available
                &&& can_switch <==> app.settings.desktop_switch_enabled && account.last_success is Some
                    && has_credentials && app.desktop != DesktopModel::Managed(account.id)
                &&& login == "浏览器重新登录"@ <==> account.last_success is Some
                &&& switch == "当前已是该账号"@ <==> app.desktop == DesktopModel::Managed(account.id)
            }
        }),
{
    reveal_strlit("浏览器重新登录");
    reveal_strlit("浏览器登录");
    reveal_strlit("当前已是该账号");
    reveal_strlit("切换到桌面应用");
    assert("浏览器重新登录"@.len() == 7 && "浏览器登录"@.len() == 5);
    assert("当前已是该账号"@[0] != "切换到桌面应用"@[0]);
}

/// Every account that is worked on is counted, once for each place it has in the
/// list, and no other is.
pub proof fn lemma_working_accounts_are_counted(
    front: Seq<AccountModel>,
    account: AccountModel,
    rear: Seq<AccountModel>,
    active: Seq<u128>,
)
    ensures
        count_active(Seq::empty(), active) == 0,
        active.contains(account.id) ==> count_active(front.push(account) + rear, active)
            == count_active(front, active) + 1 + count_active(rear, active),
        !active.contains(account.id) ==> count_active(front.push(account) + rear, active)
            == count_active(front, active) + count_active(rear, active),
    decreases rear.len(),
{
    let all = front.push(account) + rear;
    if rear.len() == 0 {
        assert(all.drop_last() =~= front);
        assert(all.last() == account);
    } else {
        lemma_working_accounts_are_counted(front, account, rear.drop_last(), active);
        assert(all.drop_last() =~= front.push(account) + rear.drop_last());
        assert(all.last() == rear.last());
    }
}

/// The line below the title says that work is going on exactly while there is a switch
/// or an account that is worked on, with how many are, and else when there was a
/// refresh last.
pub proof fn lemma_progress(app: AppModel, refreshed: Option<Seq<char>>)
    ensures
        ({
            let (working, words) = progress_words(app, refreshed);
            let switching = app.desktop_operation matches Some(
                crate::worker::DesktopOperation::Switch(_),
            );
            let count = count_active(app.accounts, app.active);
            &&& working <==> switching || count > 0
            &&& !switching && count > 0 ==> holds(words, digits(count))
            &&& !working ==> (refreshed matches Some(time) ==> ends(words, time))
        }),
{
    let (working, words) = progress_words(app, refreshed);
    let count = count_active(app.accounts, app.active);
    let switching = app.desktop_operation matches Some(crate::worker::DesktopOperation::Switch(_));
    if !switching && count > 0 {
        let at = "正在处理 "@.len() as int;
        let number = digits(count);
        assert(words.subrange(at, at + number.len()) =~= number);
        assert(stands_at(words, number, at));
    }
    if !working {
        if let Some(time) = refreshed {
            assert(words.subrange(words.len() - time.len(), words.len() as int) =~= time);
        }
    }
}

/// The banner speaks of the desktop application exactly where that is on, and then
/// names the account that it is on, where that is kept, or the error.
pub proof fn lemma_banner(app: AppModel, i: int, summary: Seq<char>)
    ensures
        !app.settings.desktop_switch_enabled ==> desktop_words(app) is None,
        app.settings.desktop_switch_enabled && !(app.desktop is Disabled) ==> (desktop_words(
            app,
        ) matches Some((working, words)) && (working <==> app.desktop is Checking)),
        app.settings.desktop_switch_enabled && 0 <= i < app.accounts.len() && app.desktop
            == DesktopModel::Managed(app.accounts[i].id) && index_of(
            app.accounts,
            app.accounts[i].id,
        ) == Some(i) ==> (desktop_words(app) matches Some((_, words)) && ends(
            words,
            app.accounts[i].display_name,
        )),
        app.settings.desktop_switch_enabled && app.desktop == DesktopModel::Error(summary) ==> (
        desktop_words(app) matches Some((_, words)) && ends(words, summary)),
{
    if app.settings.desktop_switch_enabled {
        if let Some((_, words)) = desktop_words(app) {
            if let DesktopModel::Managed(id) = app.desktop {
                let name = name_or(app, id, "已管理账号"@);
                assert(words.subrange(words.len() - name.len(), words.len() as int) =~= name);
            }
            if let DesktopModel::Error(told) = app.desktop {
                assert(words.subrange(words.len() - told.len(), words.len() as int) =~= told);
            }
        }
    }
}

/// A message is shown exactly if there is one or a diagnosis, and a message is shown
/// as it is.
pub proof fn lemma_messages_are_shown(app: AppModel)
    ensures
        app.message matches Some(words) ==> message_words(app) == Some(words),
        message_words(app) is None <==> app.message is None && app.diagnostic is None,
{
}

/// A limit that was reached and spending that was stopped are each told exactly where
/// they hold, a limit first.
pub proof fn lemma_alarms(quota: QuotaSnapshot)
    ensures
        ({
            let warnings = quota_warnings(quota);
            let reached = quota.rate_limit_reached_type is Some;
            let stopped = quota.spend_control_reached == Some(true);
            &&& warnings.len() == 2 <==> reached && stopped
            &&& warnings.len() == 0 <==> !reached && !stopped
            &&& warnings.contains("⚠ 官方服务标记该账号已达到额度限制"@) <==> reached
            &&& warnings.contains("⚠ 已达到工作区用量控制上限"@) <==> stopped
            &&& reached ==> warnings[0] == "⚠ 官方服务标记该账号已达到额度限制"@
        }),
{
    reveal_strlit("⚠ 官方服务标记该账号已达到额度限制");
    reveal_strlit("⚠ 已达到工作区用量控制上限");
    let warnings = quota_warnings(quota);
    let a = "⚠ 官方服务标记该账号已达到额度限制"@;
    let b = "⚠ 已达到工作区用量控制上限"@;
    assert(a[2] != b[2]);
    let reached = quota.rate_limit_reached_type is Some;
    let stopped = quota.spend_control_reached == Some(true);
    if reached {
        assert(warnings[0] == a);
    }
    if stopped {
        assert(warnings[warnings.len() - 1] == b);
    }
    if !reached && warnings.contains(a) {
        let k = choose|k: int| 0 <= k < warnings.len() && warnings[k] == a;
        assert(warnings[k] == b);
    }
    if !stopped && warnings.contains(b) {
        let k = choose|k: int| 0 <= k < warnings.len() && warnings[k] == b;
        assert(warnings[k] == a);
    }
}

/// Token activity is told number by number where it was reported, the total before
/// the days, and something is told where neither was.
pub proof fn lemma_usage_is_told(usage: TokenUsageSummary)
    ensures
        ({
            let lines = usage_words(usage);
            &&& lines.len() == (if usage.lifetime_tokens is Some && usage.current_streak_days is Some {
                2nat
            } else {
                1nat
            })
            &&& usage.lifetime_tokens matches Some(tokens) ==> ends(
                lines[0],
                decimal(tokens as int),
            )
            &&& usage.current_streak_days matches Some(days) ==> holds(
                lines.last(),
                decimal(days as int),
            )
        }),
{
    let lines = usage_words(usage);
    if let Some(tokens) = usage.lifetime_tokens {
        let line = lines[0];
        let number = decimal(tokens as int);
        assert(line == "累计 Token 活动："@ + number);
        assert(line.subrange(line.len() - number.len(), line.len() as int) =~= number);
    }
    if let Some(days) = usage.current_streak_days {
        let line = lines.last();
        let number = decimal(days as int);
        let at = "当前连续使用："@.len() as int;
        assert(line == "当前连续使用："@ + number + " 天"@);
        assert(line.subrange(at, at + number.len()) =~= number);
        assert(stands_at(line, number, at));
    }
}

/// The kinds of plans with a name are those of the service, each under its own; any
/// other is unknown, and none is told as such.
pub proof fn lemma_plans_are_named(plan: Seq<char>)
    ensures
        plan == "plus"@ ==> plan_words(Some(plan)) == "ChatGPT Plus"@,
        plan == "pro"@ ==> plan_words(Some(plan)) == "ChatGPT Pro"@,
        plan == "team"@ ==> plan_words(Some(plan)) == "ChatGPT Team"@,
        plan == "business"@ || plan == "self_serve_business_usage_based"@ ==> plan_words(Some(plan))
            == "ChatGPT Business"@,
        plan == "enterprise"@ || plan == "enterprise_cbp_usage_based"@ ==> plan_words(Some(plan))
            == "ChatGPT Enterprise"@,
        plan == "edu"@ ==> plan_words(Some(plan)) == "ChatGPT Edu"@,
        plan == "free"@ ==> plan_words(Some(plan)) == "Free"@,
        plan == "go"@ ==> plan_words(Some(plan)) == "Go"@,
        plan == "prolite"@ || plan == "self_serve_business_prolite"@ ==> plan_words(Some(plan))
            == "Pro Lite"@,
        plan_words(Some(plan)) == "未知套餐"@ || begins(plan_words(Some(plan)), "ChatGPT "@) ||
            plan_words(Some(plan)) == "Free"@ || plan_words(Some(plan)) == "Go"@ || plan_words(
            Some(plan),
        ) == "Pro Lite"@,
        plan_words(None) != plan_words(Some(plan)),
{
    reveal_strlit("plus");
    reveal_strlit("pro");
    reveal_strlit("team");
    reveal_strlit("business");
    reveal_strlit("self_serve_business_usage_based");
    reveal_strlit("enterprise");
    reveal_strlit("enterprise_cbp_usage_based");
    reveal_strlit("edu");
    reveal_strlit("free");
    reveal_strlit("go");
    reveal_strlit("prolite");
    reveal_strlit("self_serve_business_prolite");
    assert("plus"@.len() == 4 && "pro"@.len() == 3 && "team"@.len() == 4 && "edu"@.len() == 3);
    assert("free"@.len() == 4 && "go"@.len() == 2 && "prolite"@.len() == 7);
    assert("business"@.len() == 8 && "self_serve_business_usage_based"@.len() == 31);
    assert("enterprise"@.len() == 10 && "enterprise_cbp_usage_based"@.len() == 26);
    assert("self_serve_business_prolite"@.len() == 27);
    lemma_plan_texts();
    lemma_plan_codes();
}

proof fn lemma_plan_codes()
    ensures
        "pro"@ != "plus"@ && "team"@ != "plus"@ && "team"@ != "pro"@ && "edu"@ != "pro"@,
        "free"@ != "plus"@ && "free"@ != "team"@ && "go"@ != "edu"@,
{
    reveal_strlit("plus");
    reveal_strlit("pro");
    reveal_strlit("team");
    reveal_strlit("edu");
    reveal_strlit("free");
    reveal_strlit("go");
    assert("pro"@.len() == 3 && "plus"@.len() == 4 && "go"@.len() == 2);
    assert("team"@[0] != "plus"@[0]);
    assert("edu"@[0] != "pro"@[0]);
    assert("free"@[0] != "plus"@[0] && "free"@[0] != "team"@[0]);
}

proof fn lemma_plan_texts()
    ensures
        begins("ChatGPT Plus"@, "ChatGPT "@),
        begins("ChatGPT Pro"@, "ChatGPT "@),
        begins("ChatGPT Team"@, "ChatGPT "@),
        begins("ChatGPT Business"@, "ChatGPT "@),
        begins("ChatGPT Enterprise"@, "ChatGPT "@),
        begins("ChatGPT Edu"@, "ChatGPT "@),
        "未提供"@.len() == 3,
        "未知套餐"@.len() == 4,
        "Free"@.len() == 4,
        "Go"@.len() == 2,
        "Pro Lite"@.len() == 8,
        forall|s: Seq<char>| #[trigger] begins(s, "ChatGPT "@) ==> s.len() >= 8,
{
    reveal_strlit("ChatGPT ");
    reveal_strlit("ChatGPT Plus");
    reveal_strlit("ChatGPT Pro");
    reveal_strlit("ChatGPT Team");
    reveal_strlit("ChatGPT Business");
    reveal_strlit("ChatGPT Enterprise");
    reveal_strlit("ChatGPT Edu");
    reveal_strlit("未提供");
    reveal_strlit("未知套餐");
    reveal_strlit("Free");
    reveal_strlit("Go");
    reveal_strlit("Pro Lite");
    assert("ChatGPT Plus"@.subrange(0, 8) =~= "ChatGPT "@);
    assert("ChatGPT Pro"@.subrange(0, 8) =~= "ChatGPT "@);
    assert("ChatGPT Team"@.subrange(0, 8) =~= "ChatGPT "@);
    assert("ChatGPT Business"@.subrange(0, 8) =~= "ChatGPT "@);
    assert("ChatGPT Enterprise"@.subrange(0, 8) =~= "ChatGPT "@);
    assert("ChatGPT Edu"@.subrange(0, 8) =~= "ChatGPT "@);
}

/// A success, work that goes on, an account that is logged out and a failure have
/// colours of their own, and all failures have the same.
pub proof fn lemma_colours_tell_statuses_apart(step: &'static str)
    ensures
        status_shade(AccountStatus::Success) != status_shade(AccountStatus::Failed),
        status_shade(AccountStatus::Success) != status_shade(AccountStatus::NotLoggedIn),
        status_shade(AccountStatus::Success) != status_shade(AccountStatus::Querying(step)),
        status_shade(AccountStatus::NotLoggedIn) != status_shade(AccountStatus::Failed),
        status_shade(AccountStatus::Querying(step)) != status_shade(AccountStatus::Failed),
        status_shade(AccountStatus::Idle) == Shade::Weak,
        status_shade(AccountStatus::TimedOut) == status_shade(AccountStatus::Failed),
        status_shade(AccountStatus::CodexUnavailable) == status_shade(AccountStatus::Failed),
        status_shade(AccountStatus::ProtocolIncompatible) == status_shade(AccountStatus::Failed),
{
}

/// An action of the user does what it says and to the account that it names: nothing
/// is saved but a change of who takes part, dialogs only open, and stopping changes
/// nothing by itself.
pub proof fn lemma_actions_do_what_they_say(
    before: MonitorApp,
    after: MonitorApp,
    action: UiAction,
    style: PathStyle,
    user_home: Option<String>,
    r: Result<Command, AppError>,
)
    requires
        action_taken(before, after, action, style, user_home, r),
    ensures
        r matches Ok(Command::Refresh(order)) ==> action == UiAction::Refresh(order.account_id),
        r matches Ok(Command::Login(order, by_code)) ==> action == UiAction::Login(
            order.account_id,
            by_code,
        ),
        r matches Ok(Command::Logout(order)) ==> action == UiAction::Logout(order.account_id),
        r matches Ok(Command::Cancel(id)) ==> action == UiAction::Cancel(id),
        r matches Ok(Command::Switch(order)) ==> action is SwitchDesktop,
        r matches Ok(Command::Save) ==> action is SetEnabled,
        action matches UiAction::Cancel(id) ==> after@ == before@ && r == Ok::<Command, AppError>(
            Command::Cancel(id),
        ),
        action matches UiAction::Rename(id, name) ==> after@.edit_dialog == Some((id, name@))
            && after@.accounts == before@.accounts,
        action matches UiAction::Delete(id) ==> after@.delete_dialog == Some((id, false))
            && after@.accounts == before@.accounts,
        !(action is SetEnabled) ==> after@.accounts == before@.accounts,
        action matches UiAction::SetEnabled(id, enabled) ==> (r == Ok::<Command, AppError>(
            Command::Save,
        ) <==> !before@.is_busy() && exists|i: int|
            0 <= i < before@.accounts.len() && (#[trigger] before@.accounts[i]).id == id),
        action is SetEnabled && r != Ok::<Command, AppError>(Command::Save) ==> after@.accounts
            == before@.accounts,
{
    match action {
        UiAction::SetEnabled(id, enabled) => {
            crate::app::lemma_index_of(before@.accounts, id);
            if let Some(i) = crate::app::index_of(before@.accounts, id) {
                assert(before@.accounts[i].id == id);
            }
        },
        UiAction::Refresh(id) => {
            if let Ok(Command::Refresh(order)) = r {
                crate::app::lemma_work_begins(before@, after@, id, Some(order));
            } else {
                crate::app::lemma_work_begins(before@, after@, id, None);
            }
        },
        UiAction::Logout(id) => {
            if let Ok(Command::Logout(order)) = r {
                crate::app::lemma_work_begins(before@, after@, id, Some(order));
            } else {
                crate::app::lemma_work_begins(before@, after@, id, None);
            }
        },
        _ => {},
    }
}

} // verus!
