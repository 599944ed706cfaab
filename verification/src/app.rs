//! The state of the application, and what events and the user do to it.

use std::collections::HashMap;

use vstd::prelude::*;

use crate::account::{
    find_account, lemma_place_of, place_of, AccountIdentity, AccountRecord, AccountRuntime,
    AccountStatus, CachedAccountData, RuntimeModel,
};
use crate::account_switch::{
    default_global_codex_home, CredentialOwner, DesktopCredentialInspection,
};
use crate::codex_locator::CodexInstallation;
use crate::error::{AppError, ErrorModel};
use crate::logging::{redact, redacted};
use crate::paths::{below, is_absolute, is_absolute_path, PathStyle};
use crate::storage::{AppConfig, AppSettings, Storage, ThemePreference};
use crate::text::{
    begins, digits, digits_text, ends, holds, or_empty, stands_at, text_of, trim_text, trimmed,
};
use crate::time::Timestamp;
use crate::worker::{
    DesktopOperation, FailureCategory, OperationKind, RefreshJob, WorkerEvent, WorkerFailure,
    WorkerManager,
};

verus! {

broadcast use vstd::std_specs::hash::group_hash_axioms;

/// What is known of the program of the service.
#[derive(Debug, PartialEq, Eq)]
pub enum CodexState {
    Detecting,
    Available(CodexInstallation),
    Unavailable { summary: String, diagnostic: String },
}

/// Whose the desktop application is.
#[derive(Debug, PartialEq, Eq)]
pub enum DesktopAccountState {
    Disabled,
    Checking,
    Managed(u128),
    Unmanaged,
    Missing,
    Error(String),
}

/// Whose the desktop application is, with texts as such.
pub enum DesktopModel {
    Disabled,
    Checking,
    Managed(u128),
    Unmanaged,
    Missing,
    Error(Seq<char>),
}

impl DesktopAccountState {
    /// Whose the desktop application is, with texts as such.
    pub open spec fn view(self) -> DesktopModel {
        match self {
            DesktopAccountState::Disabled => DesktopModel::Disabled,
            DesktopAccountState::Checking => DesktopModel::Checking,
            DesktopAccountState::Managed(id) => DesktopModel::Managed(id),
            DesktopAccountState::Unmanaged => DesktopModel::Unmanaged,
            DesktopAccountState::Missing => DesktopModel::Missing,
            DesktopAccountState::Error(s) => DesktopModel::Error(s@),
        }
    }
}

/// The dialog in which an account is added.
#[derive(Debug, PartialEq, Eq)]
pub struct AddDialog {
    pub name: String,
}

/// The dialog in which an account is renamed.
#[derive(Debug, PartialEq, Eq)]
pub struct EditDialog {
    pub account_id: u128,
    pub name: String,
}

/// The dialog in which an account is deleted.
#[derive(Debug, PartialEq, Eq)]
pub struct DeleteDialog {
    pub account_id: u128,
    pub delete_credentials: bool,
}

/// The whole state of the application.
pub struct MonitorApp {
    pub storage: Option<Storage>,
    pub config: AppConfig,
    pub runtimes: HashMap<u128, AccountRuntime>,
    pub worker: WorkerManager,
    pub codex_state: CodexState,
    pub last_global_refresh: Option<Timestamp>,
    pub global_message: Option<String>,
    pub global_diagnostic: Option<String>,
    pub add_dialog: Option<AddDialog>,
    pub edit_dialog: Option<EditDialog>,
    pub delete_dialog: Option<DeleteDialog>,
    pub show_settings: bool,
    pub settings_path_buffer: String,
    pub desktop_home_buffer: String,
    pub desktop_account_state: DesktopAccountState,
    pub auto_refresh_pending: bool,
    pub desktop_inspection_pending: bool,
    /// Whether the configuration is written: not over one that could not be read.
    pub keeps_config: bool,
}

/// An account as the configuration keeps it, with texts as such.
#[verifier::ext_equal]
pub struct AccountModel {
    pub id: u128,
    pub display_name: Seq<char>,
    pub state_dir: Seq<char>,
    pub enabled: bool,
    pub order: u32,
    pub last_success: Option<CachedAccountData>,
    pub last_attempt_at: Option<Timestamp>,
}

/// An account with texts as such.
pub open spec fn account_model(account: AccountRecord) -> AccountModel {
    AccountModel {
        id: account.id,
        display_name: account.display_name@,
        state_dir: account.state_dir@,
        enabled: account.enabled,
        order: account.order,
        last_success: account.last_success,
        last_attempt_at: account.last_attempt_at,
    }
}

/// Accounts with texts as such.
pub open spec fn account_models(accounts: Seq<AccountRecord>) -> Seq<AccountModel> {
    Seq::new(accounts.len(), |i: int| account_model(accounts[i]))
}

/// What the user chose, with texts as such.
#[verifier::ext_equal]
pub struct SettingsModel {
    pub auto_refresh_on_start: bool,
    pub custom_codex_path: Option<Seq<char>>,
    pub request_timeout_seconds: u64,
    pub stale_after_minutes: i64,
    pub theme: ThemePreference,
    pub desktop_switch_enabled: bool,
    pub desktop_codex_home: Option<Seq<char>>,
}

/// Settings with texts as such.
pub open spec fn settings_model(settings: AppSettings) -> SettingsModel {
    SettingsModel {
        auto_refresh_on_start: settings.auto_refresh_on_start,
        custom_codex_path: text_of(settings.custom_codex_path),
        request_timeout_seconds: settings.request_timeout_seconds,
        stale_after_minutes: settings.stale_after_minutes,
        theme: settings.theme,
        desktop_switch_enabled: settings.desktop_switch_enabled,
        desktop_codex_home: text_of(settings.desktop_codex_home),
    }
}

/// The whole state of the application, with texts as such.
#[verifier::ext_equal]
pub struct AppModel {
    pub storage: Option<Storage>,
    pub schema_version: u32,
    pub settings: SettingsModel,
    pub accounts: Seq<AccountModel>,
    pub last_active: Option<u128>,
    pub runtimes: Map<u128, RuntimeModel>,
    pub active: Seq<u128>,
    pub detecting: bool,
    pub desktop_operation: Option<DesktopOperation>,
    pub codex_state: CodexState,
    pub last_global_refresh: Option<Timestamp>,
    pub message: Option<Seq<char>>,
    pub diagnostic: Option<Seq<char>>,
    pub add_dialog: Option<Seq<char>>,
    pub edit_dialog: Option<(u128, Seq<char>)>,
    pub delete_dialog: Option<(u128, bool)>,
    pub show_settings: bool,
    pub path_buffer: Seq<char>,
    pub home_buffer: Seq<char>,
    pub desktop: DesktopModel,
    pub auto_refresh_pending: bool,
    pub inspection_pending: bool,
    pub keeps_config: bool,
}

impl AppModel {
    /// Whether any work is going on.
    pub open spec fn is_busy(self) -> bool {
        self.active.len() > 0 || self.desktop_operation is Some
    }
}

impl MonitorApp {
    /// The whole state, with texts as such.
    pub open spec fn view(self) -> AppModel {
        AppModel {
            storage: self.storage,
            schema_version: self.config.schema_version,
            settings: settings_model(self.config.settings),
            accounts: account_models(self.config.accounts@),
            last_active: self.config.last_active_desktop_account_id,
            runtimes: self.runtimes@.map_values(|r: AccountRuntime| r@),
            active: self.worker.active@,
            detecting: self.worker.codex_detection_active,
            desktop_operation: self.worker.desktop_operation,
            codex_state: self.codex_state,
            last_global_refresh: self.last_global_refresh,
            message: text_of(self.global_message),
            diagnostic: text_of(self.global_diagnostic),
            add_dialog: match self.add_dialog {
                Some(dialog) => Some(dialog.name@),
                None => None,
            },
            edit_dialog: match self.edit_dialog {
                Some(dialog) => Some((dialog.account_id, dialog.name@)),
                None => None,
            },
            delete_dialog: match self.delete_dialog {
                Some(dialog) => Some((dialog.account_id, dialog.delete_credentials)),
                None => None,
            },
            show_settings: self.show_settings,
            path_buffer: self.settings_path_buffer@,
            home_buffer: self.desktop_home_buffer@,
            desktop: self.desktop_account_state@,
            auto_refresh_pending: self.auto_refresh_pending,
            inspection_pending: self.desktop_inspection_pending,
            keeps_config: self.keeps_config,
        }
    }
}

/// The place of the first account with an identifier.
pub open spec fn index_of(accounts: Seq<AccountModel>, id: u128) -> Option<int>
    decreases accounts.len(),
{
    if accounts.len() == 0 {
        None
    } else if accounts[0].id == id {
        Some(0)
    } else {
        match index_of(accounts.drop_first(), id) {
            Some(i) => Some(i + 1),
            None => None,
        }
    }
}

/// A place that was found is the first one with the identifier.
pub proof fn lemma_index_of(accounts: Seq<AccountModel>, id: u128)
    ensures
        match index_of(accounts, id) {
            Some(i) => 0 <= i < accounts.len() && accounts[i].id == id && (forall|j: int|
                0 <= j < i ==> (#[trigger] accounts[j]).id != id),
            None => forall|j: int| 0 <= j < accounts.len() ==> (#[trigger] accounts[j]).id != id,
        },
    decreases accounts.len(),
{
    if accounts.len() > 0 && accounts[0].id != id {
        let rest = accounts.drop_first();
        lemma_index_of(rest, id);
        let end = match index_of(rest, id) {
            Some(i) => i + 1,
            None => accounts.len() as int,
        };
        assert forall|j: int| 0 <= j < end implies (#[trigger] accounts[j]).id != id by {
            if j > 0 {
                assert(rest[j - 1].id != id);
            }
        }
    }
}

/// Finds the first account with an identifier.
pub fn find_index(accounts: &Vec<AccountRecord>, id: u128) -> (r: Option<usize>)
    ensures
        match r {
            Some(i) => index_of(account_models(accounts@), id) == Some(i as int) && i
                < accounts@.len(),
            None => index_of(account_models(accounts@), id) is None,
        },
{
    let r = find_account(accounts, id);
    proof {
        let all = account_models(accounts@);
        lemma_index_of(all, id);
        lemma_place_of(accounts@, id);
        if let Some(k) = index_of(all, id) {
            assert(accounts@[k].id == id);
        }
        if let Some(k) = place_of(accounts@, id) {
            assert(all[k].id == id);
        }
    }
    r
}

/// The state with one account changed, where there is such an account.
pub open spec fn with_account(
    app: AppModel,
    id: u128,
    change: spec_fn(AccountModel) -> AccountModel,
) -> AppModel {
    match index_of(app.accounts, id) {
        Some(i) => AppModel {
            accounts: app.accounts.update(i, change(app.accounts[i])),
            ..app
        },
        None => app,
    }
}

/// What is known of an account while the application runs.
pub open spec fn runtime_of(app: AppModel, id: u128) -> RuntimeModel {
    if app.runtimes.dom().contains(id) {
        app.runtimes[id]
    } else {
        RuntimeModel::fresh()
    }
}

/// The state with something else known of an account.
pub open spec fn with_runtime(app: AppModel, id: u128, runtime: RuntimeModel) -> AppModel {
    AppModel { runtimes: app.runtimes.insert(id, runtime), ..app }
}

/// The state after an account was worked on.
pub open spec fn touched(app: AppModel, id: u128, now: Timestamp) -> AppModel {
    with_account(app, id, |a: AccountModel| AccountModel { last_attempt_at: Some(now), ..a })
}

/// The state after an account was queried.
pub open spec fn succeeded(
    app: AppModel,
    id: u128,
    now: Timestamp,
    data: CachedAccountData,
) -> AppModel {
    with_account(
        app,
        id,
        |a: AccountModel|
            AccountModel { last_attempt_at: Some(now), last_success: Some(data), ..a },
    )
}

/// The state after an account that was queried before told who it is.
pub open spec fn identified(app: AppModel, id: u128, identity: AccountIdentity) -> AppModel {
    with_account(
        app,
        id,
        |a: AccountModel|
            AccountModel {
                last_success: match a.last_success {
                    Some(cache) => Some(CachedAccountData { identity, ..cache }),
                    None => None,
                },
                ..a
            },
    )
}

/// The state in which the desktop application is to be looked at, where that is on.
pub open spec fn inspection_due(app: AppModel) -> AppModel {
    AppModel {
        inspection_pending: app.inspection_pending || app.settings.desktop_switch_enabled,
        ..app
    }
}

/// What a failure of a kind leaves an account in.
pub open spec fn failure_status(category: FailureCategory) -> AccountStatus {
    match category {
        FailureCategory::Cancelled => AccountStatus::Idle,
        FailureCategory::NotLoggedIn => AccountStatus::NotLoggedIn,
        FailureCategory::TimedOut => AccountStatus::TimedOut,
        FailureCategory::CodexUnavailable => AccountStatus::CodexUnavailable,
        FailureCategory::ProtocolIncompatible => AccountStatus::ProtocolIncompatible,
        FailureCategory::Other => AccountStatus::Failed,
    }
}

/// The name of an account and its address, for a message.
pub open spec fn named(app: AppModel, id: u128) -> Seq<char> {
    match index_of(app.accounts, id) {
        Some(i) => app.accounts[i].display_name + "\n"@ + (match app.accounts[i].last_success {
            Some(cache) => match cache.identity.email {
                Some(email) => email@,
                None => "官方未提供邮箱"@,
            },
            None => "官方未提供邮箱"@,
        }),
        None => "账号"@ + "\n"@ + "官方未提供邮箱"@,
    }
}

/// What the user is told after a switch.
pub open spec fn switch_message(
    named: Seq<char>,
    already_active: bool,
    warning: Option<Seq<char>>,
) -> Seq<char> {
    if already_active {
        "当前已是该账号："@ + named
    } else {
        match warning {
            Some(words) => "已将桌面应用切换到："@ + named + "\n⚠ "@ + words,
            None => "已将桌面应用切换到："@ + named,
        }
    }
}

/// The state after an event.
pub open spec fn after_event(app: AppModel, event: WorkerEvent, now: Timestamp) -> AppModel {
    match event {
        WorkerEvent::CodexDetected(Ok(installation)) => AppModel {
            codex_state: CodexState::Available(installation),
            diagnostic: None,
            inspection_pending: app.inspection_pending || app.settings.desktop_switch_enabled,
            desktop: if app.settings.desktop_switch_enabled {
                DesktopModel::Checking
            } else {
                app.desktop
            },
            ..app
        },
        WorkerEvent::CodexDetected(Err(failure)) => AppModel {
            codex_state: CodexState::Unavailable {
                summary: failure.summary,
                diagnostic: failure.diagnostic,
            },
            auto_refresh_pending: false,
            ..app
        },
        WorkerEvent::Started { account_id, operation, step } => with_runtime(
            AppModel {
                desktop: if operation == OperationKind::SwitchDesktopAccount {
                    DesktopModel::Checking
                } else {
                    app.desktop
                },
                ..app
            },
            account_id,
            RuntimeModel {
                status: AccountStatus::Querying(step),
                error_summary: None,
                diagnostic: None,
                ..runtime_of(app, account_id)
            },
        ),
        WorkerEvent::Step { account_id, step } => with_runtime(
            app,
            account_id,
            RuntimeModel {
                status: AccountStatus::Querying(step),
                ..runtime_of(app, account_id)
            },
        ),
        WorkerEvent::LoginChallenge { account_id, challenge } => with_runtime(
            app,
            account_id,
            RuntimeModel { login_challenge: Some(challenge), ..runtime_of(app, account_id) },
        ),
        WorkerEvent::BrowserOpenFailed { account_id, detail } => with_runtime(
            app,
            account_id,
            RuntimeModel {
                error_summary: Some("无法自动打开浏览器，请点击登录窗口中的链接"@),
                diagnostic: Some(redacted(detail@)),
                ..runtime_of(app, account_id)
            },
        ),
        WorkerEvent::QueryFinished { account_id, data } => after_query(app, account_id, data, now),
        WorkerEvent::LoginFinished { account_id, data } => after_query(app, account_id, data, now),
        WorkerEvent::LogoutFinished { account_id } => inspection_due(
            with_runtime(
                touched(app, account_id, now),
                account_id,
                RuntimeModel { status: AccountStatus::NotLoggedIn, ..RuntimeModel::fresh() },
            ),
        ),
        WorkerEvent::DesktopInspected { inspection, verified_identity } => after_inspection(
            app,
            inspection,
            verified_identity,
        ),
        WorkerEvent::DesktopSwitchFinished {
            account_id,
            identity,
            recovery_path,
            already_active,
            warning,
        } => after_switch(app, account_id, identity, recovery_path, already_active, warning),
        WorkerEvent::Failed { account_id, operation, failure } => after_failure(
            app,
            account_id,
            operation,
            failure,
            now,
        ),
    }
}

/// The state after the desktop's credentials were looked at.
pub open spec fn after_inspection(
    app: AppModel,
    inspection: DesktopCredentialInspection,
    verified_identity: Option<AccountIdentity>,
) -> AppModel {
    let seen = AppModel {
        desktop: match inspection.owner {
            CredentialOwner::Managed(id) => DesktopModel::Managed(id),
            CredentialOwner::Missing => DesktopModel::Missing,
            _ => DesktopModel::Unmanaged,
        },
        last_active: match inspection.owner {
            CredentialOwner::Managed(id) => Some(id),
            _ => None,
        },
        ..app
    };
    match (inspection.owner, verified_identity) {
        (CredentialOwner::Managed(id), Some(identity)) => identified(seen, id, identity),
        _ => seen,
    }
}

/// The state after an operation on an account failed.
pub open spec fn after_failure(
    app: AppModel,
    account_id: u128,
    operation: OperationKind,
    failure: WorkerFailure,
    now: Timestamp,
) -> AppModel {
    if operation == OperationKind::InspectDesktopAccount {
        AppModel {
            desktop: DesktopModel::Error(failure.summary@),
            inspection_pending: false,
            ..app
        }
    } else {
        let told = if operation == OperationKind::SwitchDesktopAccount {
            AppModel {
                desktop: DesktopModel::Error("切换失败，当前桌面账号需要重新验证"@),
                message: Some(failure.summary@),
                diagnostic: Some(failure.diagnostic@),
                ..app
            }
        } else {
            app
        };
        let given_up = failure.category == FailureCategory::Cancelled;
        with_runtime(
            touched(told, account_id, now),
            account_id,
            RuntimeModel {
                status: failure_status(failure.category),
                error_summary: if given_up {
                    None
                } else {
                    Some(failure.summary@)
                },
                diagnostic: if given_up {
                    None
                } else {
                    Some(failure.diagnostic@)
                },
                login_challenge: None,
            },
        )
    }
}

/// The state after a switch.
pub open spec fn after_switch(
    app: AppModel,
    id: u128,
    identity: AccountIdentity,
    recovery_path: Option<String>,
    already_active: bool,
    warning: Option<String>,
) -> AppModel {
    let seen = identified(
        AppModel { desktop: DesktopModel::Managed(id), last_active: Some(id), ..app },
        id,
        identity,
    );
    with_runtime(
        AppModel {
            message: Some(switch_message(named(seen, id), already_active, text_of(warning))),
            ..seen
        },
        id,
        RuntimeModel {
            status: AccountStatus::Success,
            error_summary: text_of(warning),
            diagnostic: match recovery_path {
                Some(path) => Some("恢复副本："@ + path@),
                None => None,
            },
            ..runtime_of(app, id)
        },
    )
}

/// The state after an account was queried with success.
pub open spec fn after_query(
    app: AppModel,
    id: u128,
    data: CachedAccountData,
    now: Timestamp,
) -> AppModel {
    inspection_due(
        AppModel {
            last_global_refresh: Some(now),
            ..with_runtime(
                succeeded(app, id, now, data),
                id,
                RuntimeModel { status: AccountStatus::Success, ..RuntimeModel::fresh() },
            )
        },
    )
}

/// Whether the configuration is written after an event.
pub open spec fn saves_after(event: WorkerEvent) -> bool {
    match event {
        WorkerEvent::QueryFinished { account_id, data } => true,
        WorkerEvent::LoginFinished { account_id, data } => true,
        WorkerEvent::LogoutFinished { account_id } => true,
        WorkerEvent::DesktopInspected { inspection, verified_identity } => true,
        WorkerEvent::DesktopSwitchFinished {
            account_id,
            identity,
            recovery_path,
            already_active,
            warning,
        } => true,
        WorkerEvent::Failed { account_id, operation, failure } => operation
            != OperationKind::InspectDesktopAccount,
        _ => false,
    }
}

impl MonitorApp {
    fn runtime_copy(&self, id: u128) -> (r: AccountRuntime)
        ensures
            r@ == runtime_of(self@, id),
    {
        match self.runtimes.get(&id) {
            Some(runtime) => runtime.copy(),
            None => AccountRuntime::default(),
        }
    }

    fn put_runtime(&mut self, id: u128, runtime: AccountRuntime)
        ensures
            final(self)@ == with_runtime(old(self)@, id, runtime@),
    {
        let ghost before = self.runtimes@;
        self.runtimes.insert(id, runtime);
        assert(self.runtimes@.map_values(|r: AccountRuntime| r@) =~= before.map_values(
            |r: AccountRuntime| r@,
        ).insert(id, runtime@));
    }

    fn touch_account(&mut self, id: u128, now: Timestamp)
        ensures
            final(self)@ == touched(old(self)@, id, now),
    {
        if let Some(i) = find_index(&self.config.accounts, id) {
            let ghost before = account_models(self.config.accounts@);
            self.config.accounts[i].last_attempt_at = Some(now);
            assert(account_models(self.config.accounts@) =~= before.update(
                i as int,
                AccountModel { last_attempt_at: Some(now), ..before[i as int] },
            ));
        }
    }

    fn store_success(&mut self, id: u128, now: Timestamp, data: CachedAccountData)
        ensures
            final(self)@ == succeeded(old(self)@, id, now, data),
    {
        if let Some(i) = find_index(&self.config.accounts, id) {
            let ghost before = account_models(self.config.accounts@);
            self.config.accounts[i].last_attempt_at = Some(now);
            self.config.accounts[i].last_success = Some(data);
            assert(account_models(self.config.accounts@) =~= before.update(
                i as int,
                AccountModel {
                    last_attempt_at: Some(now),
                    last_success: Some(data),
                    ..before[i as int]
                },
            ));
        }
    }

    fn store_identity(&mut self, id: u128, identity: AccountIdentity)
        ensures
            final(self)@ == identified(old(self)@, id, identity),
    {
        if let Some(i) = find_index(&self.config.accounts, id) {
            let ghost before = account_models(self.config.accounts@);
            let cache = self.config.accounts[i].last_success.take();
            self.config.accounts[i].last_success = match cache {
                Some(cache) => Some(CachedAccountData { identity, quota: cache.quota }),
                None => None,
            };
            assert(account_models(self.config.accounts@) =~= before.update(
                i as int,
                AccountModel {
                    last_success: match before[i as int].last_success {
                        Some(cache) => Some(CachedAccountData { identity, ..cache }),
                        None => None,
                    },
                    ..before[i as int]
                },
            ));
        }
    }

    fn note_inspection(&mut self)
        ensures
            final(self)@ == inspection_due(old(self)@),
    {
        if self.config.settings.desktop_switch_enabled {
            self.desktop_inspection_pending = true;
        }
    }

    fn name_account(&self, id: u128) -> (r: String)
        ensures
            r@ == named(self@, id),
    {
        let mut out = String::new();
        match find_index(&self.config.accounts, id) {
            Some(i) => {
                let account = &self.config.accounts[i];
                out.append(account.display_name.as_str());
                out.append("\n");
                match &account.last_success {
                    Some(cache) => match &cache.identity.email {
                        Some(email) => out.append(email.as_str()),
                        None => out.append("官方未提供邮箱"),
                    },
                    None => out.append("官方未提供邮箱"),
                }
                assert(self@.accounts[i as int] == account_model(self.config.accounts@[i as int]));
            },
            None => {
                out.append("账号");
                out.append("\n");
                out.append("官方未提供邮箱");
            },
        }
        assert(out@ =~= named(self@, id));
        out
    }

    fn switch_words(&self, id: u128, already_active: bool, warning: &Option<String>) -> (r: String)
        ensures
            r@ == switch_message(named(self@, id), already_active, text_of(*warning)),
    {
        let mut message = if already_active {
            "当前已是该账号：".to_owned()
        } else {
            "已将桌面应用切换到：".to_owned()
        };
        message.append(self.name_account(id).as_str());
        if !already_active {
            if let Some(words) = warning {
                message.append("\n⚠ ");
                message.append(words.as_str());
            }
        }
        message
    }

    fn finish_query(&mut self, id: u128, data: CachedAccountData, now: Timestamp)
        ensures
            final(self)@ == after_query(old(self)@, id, data, now),
    {
        self.store_success(id, now, data);
        let mut runtime = AccountRuntime::default();
        runtime.status = AccountStatus::Success;
        self.put_runtime(id, runtime);
        self.last_global_refresh = Some(now);
        self.note_inspection();
    }

    fn finish_switch(
        &mut self,
        id: u128,
        identity: AccountIdentity,
        recovery_path: Option<String>,
        already_active: bool,
        warning: Option<String>,
    )
        ensures
            final(self)@ == after_switch(
                old(self)@,
                id,
                identity,
                recovery_path,
                already_active,
                warning,
            ),
    {
        let mut runtime = self.runtime_copy(id);
        self.desktop_account_state = DesktopAccountState::Managed(id);
        self.config.last_active_desktop_account_id = Some(id);
        self.store_identity(id, identity);
        let message = self.switch_words(id, already_active, &warning);
        self.global_message = Some(message);
        runtime.status = AccountStatus::Success;
        runtime.error_summary = warning;
        runtime.diagnostic = match recovery_path {
            Some(path) => {
                let mut words = "恢复副本：".to_owned();
                words.append(path.as_str());
                Some(words)
            },
            None => None,
        };
        self.put_runtime(id, runtime);
    }

    /// Takes in whose the desktop's credentials are.
    fn finish_inspection(
        &mut self,
        inspection: DesktopCredentialInspection,
        verified_identity: Option<AccountIdentity>,
    )
        ensures
            final(self)@ == after_inspection(old(self)@, inspection, verified_identity),
    {
        match inspection.owner {
            CredentialOwner::Managed(id) => {
                self.desktop_account_state = DesktopAccountState::Managed(id);
                self.config.last_active_desktop_account_id = Some(id);
                if let Some(identity) = verified_identity {
                    self.store_identity(id, identity);
                }
            },
            CredentialOwner::Missing => {
                self.desktop_account_state = DesktopAccountState::Missing;
                self.config.last_active_desktop_account_id = None;
            },
            _ => {
                self.desktop_account_state = DesktopAccountState::Unmanaged;
                self.config.last_active_desktop_account_id = None;
            },
        }
    }

    /// Takes in that an operation on an account failed.
    fn finish_failure(
        &mut self,
        account_id: u128,
        operation: OperationKind,
        failure: WorkerFailure,
        now: Timestamp,
    )
        ensures
            final(self)@ == after_failure(old(self)@, account_id, operation, failure, now),
    {
        if operation == OperationKind::InspectDesktopAccount {
            self.desktop_account_state = DesktopAccountState::Error(failure.summary);
            self.desktop_inspection_pending = false;
            return;
        }
        if operation == OperationKind::SwitchDesktopAccount {
            self.desktop_account_state = DesktopAccountState::Error(
                "切换失败，当前桌面账号需要重新验证".to_owned(),
            );
            self.global_message = Some(failure.summary.clone());
            self.global_diagnostic = Some(failure.diagnostic.clone());
        }
        self.touch_account(account_id, now);
        let given_up = failure.category == FailureCategory::Cancelled;
        let status = match failure.category {
            FailureCategory::Cancelled => AccountStatus::Idle,
            FailureCategory::NotLoggedIn => AccountStatus::NotLoggedIn,
            FailureCategory::TimedOut => AccountStatus::TimedOut,
            FailureCategory::CodexUnavailable => AccountStatus::CodexUnavailable,
            FailureCategory::ProtocolIncompatible => AccountStatus::ProtocolIncompatible,
            FailureCategory::Other => AccountStatus::Failed,
        };
        let runtime = AccountRuntime {
            status,
            error_summary: if given_up {
                None
            } else {
                Some(failure.summary)
            },
            diagnostic: if given_up {
                None
            } else {
                Some(failure.diagnostic)
            },
            login_challenge: None,
        };
        self.put_runtime(account_id, runtime);
    }

    /// Takes an event in; gives whether the configuration is to be written.
    pub fn process_event(&mut self, event: WorkerEvent, now: Timestamp) -> (r: bool)
        ensures
            final(self)@ == after_event(old(self)@, event, now),
            r == saves_after(event),
    {
        match event {
            WorkerEvent::CodexDetected(Ok(installation)) => {
                self.codex_state = CodexState::Available(installation);
                self.global_diagnostic = None;
                if self.config.settings.desktop_switch_enabled {
                    self.desktop_inspection_pending = true;
                    self.desktop_account_state = DesktopAccountState::Checking;
                }
                false
            },
            WorkerEvent::CodexDetected(Err(failure)) => {
                self.codex_state = CodexState::Unavailable {
                    summary: failure.summary,
                    diagnostic: failure.diagnostic,
                };
                self.auto_refresh_pending = false;
                false
            },
            WorkerEvent::Started { account_id, operation, step } => {
                let mut runtime = self.runtime_copy(account_id);
                if operation == OperationKind::SwitchDesktopAccount {
                    self.desktop_account_state = DesktopAccountState::Checking;
                }
                runtime.status = AccountStatus::Querying(step);
                runtime.error_summary = None;
                runtime.diagnostic = None;
                self.put_runtime(account_id, runtime);
                false
            },
            WorkerEvent::Step { account_id, step } => {
                let mut runtime = self.runtime_copy(account_id);
                runtime.status = AccountStatus::Querying(step);
                self.put_runtime(account_id, runtime);
                false
            },
            WorkerEvent::LoginChallenge { account_id, challenge } => {
                let mut runtime = self.runtime_copy(account_id);
                runtime.login_challenge = Some(challenge);
                self.put_runtime(account_id, runtime);
                false
            },
            WorkerEvent::BrowserOpenFailed { account_id, detail } => {
                let mut runtime = self.runtime_copy(account_id);
                runtime.error_summary = Some(
                    "无法自动打开浏览器，请点击登录窗口中的链接".to_owned(),
                );
                runtime.diagnostic = Some(redact(detail.as_str()));
                self.put_runtime(account_id, runtime);
                false
            },
            WorkerEvent::QueryFinished { account_id, data } => {
                self.finish_query(account_id, data, now);
                true
            },
            WorkerEvent::LoginFinished { account_id, data } => {
                self.finish_query(account_id, data, now);
                true
            },
            WorkerEvent::LogoutFinished { account_id } => {
                self.touch_account(account_id, now);
                let mut runtime = AccountRuntime::default();
                runtime.status = AccountStatus::NotLoggedIn;
                self.put_runtime(account_id, runtime);
                self.note_inspection();
                true
            },
            WorkerEvent::DesktopInspected { inspection, verified_identity } => {
                self.finish_inspection(inspection, verified_identity);
                true
            },
            WorkerEvent::DesktopSwitchFinished {
                account_id,
                identity,
                recovery_path,
                already_active,
                warning,
            } => {
                self.finish_switch(
                    account_id,
                    identity,
                    recovery_path,
                    already_active,
                    warning,
                );
                true
            },
            WorkerEvent::Failed { account_id, operation, failure } => {
                let written = operation != OperationKind::InspectDesktopAccount;
                self.finish_failure(account_id, operation, failure, now);
                written
            },
        }
    }
}

/// What the log says of a program that was found.
pub fn detection_log(installation: &CodexInstallation) -> (r: String)
    ensures
        r@ == "检测到 Codex "@ + installation.version@ + " ("@ + installation.path@ + ")"@,
{
    let mut out = "检测到 Codex ".to_owned();
    out.append(installation.version.as_str());
    out.append(" (");
    out.append(installation.path.as_str());
    out.append(")");
    out
}

/// What the user is told where no data can be kept.
pub fn storage_warning(error: &AppError) -> (r: String)
    ensures
        r@ == "无法使用标准应用数据目录，本次不会保存配置。\n"@ + error@.diagnosis(),
{
    let mut out = "无法使用标准应用数据目录，本次不会保存配置。\n".to_owned();
    out.append(error.diagnostic().as_str());
    out
}

fn text_or_empty(value: &Option<String>) -> (r: String)
    ensures
        r@ == or_empty(text_of(*value)),
{
    match value {
        Some(s) => s.clone(),
        None => String::new(),
    }
}

/// What comes next without the user.
#[derive(Debug, PartialEq, Eq)]
pub enum FollowUp {
    Nothing,
    InspectDesktop,
    RefreshAll,
}

/// Work on one account.
#[derive(Debug, PartialEq, Eq)]
pub struct AccountOrder {
    pub account_id: u128,
    pub state_dir: String,
    pub codex_path: String,
    pub timeout_seconds: u64,
    /// A directory that must be there first.
    pub home: Option<String>,
}

/// Work on several accounts, one after the other.
#[derive(Debug, PartialEq, Eq)]
pub struct RefreshOrder {
    pub jobs: Vec<RefreshJob>,
    pub codex_path: String,
    pub timeout_seconds: u64,
}

/// Work on the desktop application.
#[derive(Debug, PartialEq, Eq)]
pub struct DesktopOrder {
    /// The account that a switch goes to, at its place among the accounts.
    pub target: Option<usize>,
    pub codex_path: String,
    pub global_home: String,
    pub recovery_root: String,
    pub timeout_seconds: u64,
    /// A directory that must be there first.
    pub home: Option<String>,
}

/// What deleting an account asks for.
#[derive(Debug, PartialEq, Eq)]
pub enum Deletion {
    Nothing,
    /// Forget the account.
    Forget,
    /// Delete the directory with all that is in it, then forget the account.
    RemoveHome(String),
}

/// The state with something to tell the user.
pub open spec fn with_message(app: AppModel, words: Seq<char>) -> AppModel {
    AppModel { message: Some(words), ..app }
}

/// The path of the program of the service, where there is one.
pub open spec fn program_of(app: AppModel) -> Option<Seq<char>> {
    match app.codex_state {
        CodexState::Available(installation) => Some(installation.path@),
        _ => None,
    }
}

/// The home of the desktop application, or why there is none.
pub open spec fn desktop_home_of(
    app: AppModel,
    style: PathStyle,
    user_home: Option<String>,
) -> Result<Seq<char>, ErrorModel> {
    match app.settings.desktop_codex_home {
        Some(path) => if is_absolute_path(style, path) {
            Ok(path)
        } else {
            Err(ErrorModel::DesktopSwitch("自定义全局 Codex Home 必须填写绝对路径"@))
        },
        None => match user_home {
            Some(home) => Ok(below(style, home@, ".codex"@)),
            None => Err(ErrorModel::Storage("无法确定用户目录中的全局 Codex Home"@)),
        },
    }
}

/// The name under which an account is added.
pub open spec fn new_name(name: Seq<char>, count: nat) -> Seq<char> {
    if trimmed(name).len() == 0 {
        "账号 "@ + digits(count + 1)
    } else {
        trimmed(name)
    }
}

/// The accounts numbered by their places.
pub open spec fn reindexed(accounts: Seq<AccountModel>) -> Seq<AccountModel> {
    Seq::new(accounts.len(), |i: int| AccountModel { order: i as u32, ..accounts[i] })
}

/// The state without an account.
pub open spec fn forgotten(app: AppModel, id: u128) -> AppModel {
    match index_of(app.accounts, id) {
        Some(i) => AppModel {
            accounts: reindexed(app.accounts.remove(i)),
            runtimes: app.runtimes.remove(id),
            last_active: if app.last_active == Some(id) {
                None
            } else {
                app.last_active
            },
            desktop: if app.last_active == Some(id) {
                DesktopModel::Unmanaged
            } else {
                app.desktop
            },
            delete_dialog: None,
            ..app
        },
        None => AppModel { delete_dialog: None, ..app },
    }
}

/// A text without white space at its ends, if anything is left of it.
pub open spec fn filled(s: Seq<char>) -> Option<Seq<char>> {
    if trimmed(s).len() == 0 {
        None
    } else {
        Some(trimmed(s))
    }
}

fn fill(text: &str) -> (r: Option<String>)
    ensures
        text_of(r) == filled(text@),
{
    let short = trim_text(text);
    if short.as_str().is_empty() {
        None
    } else {
        Some(short)
    }
}

/// The settings as they are kept: paths without white space around them, and
/// numbers within their limits.
pub open spec fn settled_settings(app: AppModel) -> SettingsModel {
    SettingsModel {
        custom_codex_path: filled(app.path_buffer),
        desktop_codex_home: filled(app.home_buffer),
        request_timeout_seconds: if app.settings.request_timeout_seconds < 5 {
            5
        } else if app.settings.request_timeout_seconds > 120 {
            120
        } else {
            app.settings.request_timeout_seconds
        },
        stale_after_minutes: if app.settings.stale_after_minutes < 1 {
            1
        } else if app.settings.stale_after_minutes > 1_440 {
            1_440
        } else {
            app.settings.stale_after_minutes
        },
        ..app.settings
    }
}

/// The state after the settings were kept.
pub open spec fn with_settings_kept(app: AppModel) -> AppModel {
    AppModel {
        settings: settled_settings(app),
        desktop: if app.settings.desktop_switch_enabled {
            DesktopModel::Checking
        } else {
            DesktopModel::Disabled
        },
        last_active: if app.settings.desktop_switch_enabled {
            app.last_active
        } else {
            None
        },
        ..app
    }
}

impl MonitorApp {
    /// The state at the start. A start with a warning, without a place for the
    /// configuration or with one there that cannot be read, writes none.
    pub fn new(storage: Option<Storage>, config: AppConfig, startup_message: Option<String>) -> (r:
        MonitorApp)
        ensures
            r.storage == storage,
            r.config == config,
            forall|id: u128|
                r@.runtimes.dom().contains(id) <==> index_of(r@.accounts, id) is Some,
            forall|id: u128|
                r@.runtimes.dom().contains(id) ==> r@.runtimes[id] == RuntimeModel::fresh(),
            !r@.is_busy() && !r@.detecting,
            r.codex_state is Detecting,
            r.last_global_refresh is None,
            r.global_message == startup_message,
            r.global_diagnostic is None,
            r.add_dialog is None && r.edit_dialog is None && r.delete_dialog is None,
            !r.show_settings,
            r@.path_buffer == or_empty(r@.settings.custom_codex_path),
            r@.home_buffer == or_empty(r@.settings.desktop_codex_home),
            r@.desktop == (if config.settings.desktop_switch_enabled {
                DesktopModel::Checking
            } else {
                DesktopModel::Disabled
            }),
            r.auto_refresh_pending == (config.settings.auto_refresh_on_start
                && config.accounts@.len() > 0),
            !r.desktop_inspection_pending,
            r.keeps_config == (storage is Some && startup_message is None),
    {
        let keeps_config = storage.is_some() && startup_message.is_none();
        let settings_path_buffer = text_or_empty(&config.settings.custom_codex_path);
        let desktop_home_buffer = text_or_empty(&config.settings.desktop_codex_home);
        let desktop_account_state = if config.settings.desktop_switch_enabled {
            DesktopAccountState::Checking
        } else {
            DesktopAccountState::Disabled
        };
        let auto_refresh_pending = config.settings.auto_refresh_on_start && config.accounts.len()
            > 0;
        let mut runtimes: HashMap<u128, AccountRuntime> = HashMap::new();
        let ghost all = account_models(config.accounts@);
        let mut i: usize = 0;
        while i < config.accounts.len()
            invariant
                all == account_models(config.accounts@),
                i <= config.accounts@.len(),
                forall|id: u128|
                    runtimes@.dom().contains(id) <==> exists|j: int|
                        0 <= j < i && (#[trigger] all[j]).id == id,
                forall|id: u128|
                    runtimes@.dom().contains(id) ==> runtimes@[id] == AccountRuntime::fresh(),
            decreases config.accounts@.len() - i,
        {
            assert(all[i as int].id == config.accounts@[i as int].id);
            let ghost before = runtimes@;
            runtimes.insert(config.accounts[i].id, AccountRuntime::default());
            i = i + 1;
            assert forall|id: u128| runtimes@.dom().contains(id) <==> exists|j: int|
                0 <= j < i && (#[trigger] all[j]).id == id by {
                if id == all[i - 1].id {
                    assert(0 <= i - 1 < i && all[i - 1].id == id);
                } else {
                    assert(runtimes@.dom().contains(id) <==> before.dom().contains(id));
                    if before.dom().contains(id) {
                        let j = choose|j: int| 0 <= j < i - 1 && (#[trigger] all[j]).id == id;
                        assert(0 <= j < i && all[j].id == id);
                    }
                    if exists|j: int| 0 <= j < i && (#[trigger] all[j]).id == id {
                        let j = choose|j: int| 0 <= j < i && (#[trigger] all[j]).id == id;
                        assert(0 <= j < i - 1 && all[j].id == id);
                    }
                }
            }
        }
        let r = MonitorApp {
            storage,
            config,
            runtimes,
            worker: WorkerManager::new(),
            codex_state: CodexState::Detecting,
            last_global_refresh: None,
            global_message: startup_message,
            global_diagnostic: None,
            add_dialog: None,
            edit_dialog: None,
            delete_dialog: None,
            show_settings: false,
            settings_path_buffer,
            desktop_home_buffer,
            desktop_account_state,
            auto_refresh_pending,
            desktop_inspection_pending: false,
            keeps_config,
        };
        assert forall|id: u128| r@.runtimes.dom().contains(id) <==> index_of(
            r@.accounts,
            id,
        ) is Some by {
            lemma_index_of(all, id);
            assert(r@.runtimes.dom().contains(id) <==> runtimes@.dom().contains(id));
            if let Some(k) = index_of(all, id) {
                assert(0 <= k < all.len() && all[k].id == id);
            }
        }
        r
    }

    fn set_message(&mut self, words: &str)
        ensures
            final(self)@ == with_message(old(self)@, words@),
    {
        self.global_message = Some(words.to_owned());
    }

    /// Tells the user of an error.
    pub fn set_global_error(&mut self, error: &AppError)
        ensures
            final(self)@ == (AppModel {
                message: Some(error@.summary()),
                diagnostic: Some(error@.diagnosis()),
                ..old(self)@
            }),
    {
        self.global_message = Some(error.user_message().to_owned());
        self.global_diagnostic = Some(error.diagnostic());
    }

    /// Where the configuration is written to; nowhere without a place for it, or
    /// where that would lose one that could not be read.
    pub fn save_config(&self) -> (r: Option<&Storage>)
        ensures
            match r {
                Some(storage) => self.keeps_config && self.storage == Some(*storage),
                None => !self.keeps_config || self.storage is None,
            },
    {
        if !self.keeps_config {
            return None;
        }
        match &self.storage {
            Some(storage) => Some(storage),
            None => None,
        }
    }

    /// Says that other work is going on.
    pub fn refuse_desktop_work(&mut self)
        ensures
            final(self)@ == with_message(old(self)@, "已有账号操作正在进行"@),
    {
        self.set_message("已有账号操作正在进行");
    }

    /// Decides what comes next without the user: a look at the desktop
    /// application before a refresh of all accounts, and neither while other
    /// work is going on or without a program of the service.
    pub fn follow_up(&mut self) -> (r: FollowUp)
        ensures
            ({
                let free = old(self)@.codex_state is Available && !old(self)@.is_busy();
                if old(self)@.inspection_pending && free {
                    r is InspectDesktop && final(self)@ == (AppModel {
                        inspection_pending: false,
                        ..old(self)@
                    })
                } else if old(self)@.auto_refresh_pending && free {
                    r is RefreshAll && final(self)@ == (AppModel {
                        auto_refresh_pending: false,
                        ..old(self)@
                    })
                } else {
                    r is Nothing && final(self)@ == old(self)@
                }
            }),
    {
        let available = match &self.codex_state {
            CodexState::Available(_) => true,
            _ => false,
        };
        let free = available && !self.worker.any_active();
        if self.desktop_inspection_pending && free {
            self.desktop_inspection_pending = false;
            FollowUp::InspectDesktop
        } else if self.auto_refresh_pending && free {
            self.auto_refresh_pending = false;
            FollowUp::RefreshAll
        } else {
            FollowUp::Nothing
        }
    }

    /// Starts a search for the program of the service; gives whether one is to begin.
    pub fn start_codex_detection(&mut self) -> (r: bool)
        ensures
            r == !old(self)@.detecting,
            final(self)@ == (AppModel {
                codex_state: CodexState::Detecting,
                detecting: true,
                ..old(self)@
            }),
    {
        self.codex_state = CodexState::Detecting;
        self.worker.detect_codex()
    }

    /// The path of the program of the service.
    pub fn codex_path(&self) -> (r: Option<String>)
        ensures
            text_of(r) == program_of(self@),
    {
        match &self.codex_state {
            CodexState::Available(installation) => Some(installation.path.clone()),
            _ => None,
        }
    }

    fn make_jobs(&self, places: &Vec<usize>) -> (r: Vec<RefreshJob>)
        requires
            forall|k: int| 0 <= k < places@.len() ==> places@[k] < self.config.accounts@.len(),
        ensures
            r@.len() == places@.len(),
            forall|k: int|
                0 <= k < r@.len() ==> (#[trigger] r@[k]).account_id
                    == self.config.accounts@[places@[k] as int].id && r@[k].state_dir
                    == self.config.accounts@[places@[k] as int].state_dir,
    {
        let mut jobs: Vec<RefreshJob> = Vec::new();
        let mut k: usize = 0;
        while k < places.len()
            invariant
                forall|k: int| 0 <= k < places@.len() ==> places@[k] < self.config.accounts@.len(),
                k <= places@.len(),
                jobs@.len() == k,
                forall|j: int|
                    0 <= j < k ==> (#[trigger] jobs@[j]).account_id
                        == self.config.accounts@[places@[j] as int].id && jobs@[j].state_dir
                        == self.config.accounts@[places@[j] as int].state_dir,
            decreases places@.len() - k,
        {
            let account = &self.config.accounts[places[k]];
            jobs.push(
                RefreshJob { account_id: account.id, state_dir: account.state_dir.clone() },
            );
            k = k + 1;
        }
        jobs
    }

    /// Begins a refresh of all enabled accounts, unless other work is going on.
    pub fn refresh_all(&mut self) -> (r: Option<RefreshOrder>)
        ensures
            if old(self)@.is_busy() {
                r is None && final(self)@ == old(self)@
            } else if program_of(old(self)@) is None {
                r is None && final(self)@ == with_message(
                    old(self)@,
                    "Codex 不可用，无法刷新账号"@,
                )
            } else {
                &&& final(self)@ == (AppModel { active: final(self)@.active, ..old(self)@ })
                &&& r matches Some(order)
                &&& Some(order.codex_path@) == program_of(old(self)@)
                &&& order.timeout_seconds == old(self)@.settings.request_timeout_seconds
                &&& is_refresh_of(order.jobs@, old(self).config.accounts@)
                &&& final(self)@.active.len() == order.jobs@.len()
                &&& forall|k: int|
                    0 <= k < order.jobs@.len() ==> (#[trigger] final(self)@.active[k])
                        == order.jobs@[k].account_id
            },
    {
        if self.worker.any_active() {
            return None;
        }
        let codex_path = match self.codex_path() {
            Some(path) => path,
            None => {
                self.set_message("Codex 不可用，无法刷新账号");
                return None;
            },
        };
        let places = self.worker.refresh_all(&self.config.accounts);
        let jobs = self.make_jobs(&places);
        Some(
            RefreshOrder {
                jobs,
                codex_path,
                timeout_seconds: self.config.settings.request_timeout_seconds,
            },
        )
    }

    fn order_for(&self, i: usize, codex_path: String, home: Option<String>) -> (r: AccountOrder)
        requires
            i < self.config.accounts@.len(),
        ensures
            r.account_id == self@.accounts[i as int].id,
            r.state_dir@ == self@.accounts[i as int].state_dir,
            r.codex_path == codex_path,
            r.timeout_seconds == self@.settings.request_timeout_seconds,
            r.home == home,
    {
        AccountOrder {
            account_id: self.config.accounts[i].id,
            state_dir: self.config.accounts[i].state_dir.clone(),
            codex_path,
            timeout_seconds: self.config.settings.request_timeout_seconds,
            home,
        }
    }

    /// Begins a refresh of one account, unless other work is going on.
    pub fn refresh_one(&mut self, id: u128) -> (r: Option<AccountOrder>)
        ensures
            refreshed_one(old(self)@, final(self)@, id, r),
    {
        let codex_path = match self.codex_path() {
            Some(path) => path,
            None => {
                self.set_message("Codex 不可用，无法刷新账号");
                return None;
            },
        };
        self.reserve_for(id, codex_path)
    }

    fn reserve_for(&mut self, id: u128, codex_path: String) -> (r: Option<AccountOrder>)
        requires
            program_of(old(self)@) == Some(codex_path@),
        ensures
            began(old(self)@, final(self)@, id, r),
    {
        match find_index(&self.config.accounts, id) {
            Some(i) => {
                proof {
                    lemma_index_of(self@.accounts, id);
                }
                if self.worker.reserve(id) {
                    Some(self.order_for(i, codex_path, None))
                } else {
                    None
                }
            },
            None => None,
        }
    }

    /// Begins a logout of an account, unless other work is going on.
    pub fn begin_logout(&mut self, id: u128) -> (r: Option<AccountOrder>)
        ensures
            logged_out(old(self)@, final(self)@, id, r),
    {
        let codex_path = match self.codex_path() {
            Some(path) => path,
            None => {
                self.set_message("Codex 不可用，无法退出登录");
                return None;
            },
        };
        self.reserve_for(id, codex_path)
    }

    /// Prepares a login of an account. The account is still to be reserved once
    /// its home is there.
    pub fn begin_login(&mut self, id: u128) -> (r: Result<Option<AccountOrder>, AppError>)
        requires
            old(self).storage matches Some(storage) ==> storage.well_formed(),
        ensures
            login_prepared(*old(self), final(self)@, id, r),
    {
        let codex_path = match self.codex_path() {
            Some(path) => path,
            None => {
                self.set_message("Codex 不可用，无法开始登录");
                return Ok(None);
            },
        };
        let i: usize = match find_index(&self.config.accounts, id) {
            Some(i) => i,
            None => {
                return Ok(None);
            },
        };
        proof {
            lemma_index_of(self@.accounts, id);
        }
        let home = match &self.storage {
            Some(storage) => match storage.ensure_account_home(&self.config.accounts[i]) {
                Ok(path) => Some(path),
                Err(e) => {
                    return Err(e);
                },
            },
            None => None,
        };
        Ok(Some(self.order_for(i, codex_path, home)))
    }

    /// Prepares an account to be added, with a fresh identifier. Its home is
    /// still to be made, and the account to be kept.
    pub fn add_account(&mut self, name: &str) -> (r: Result<Option<AccountRecord>, AppError>)
        requires
            old(self).storage matches Some(storage) ==> storage.well_formed(),
        ensures
            if old(self)@.is_busy() {
                r matches Ok(None) && final(self)@ == with_message(
                    old(self)@,
                    "请等待当前账号操作完成"@,
                )
            } else if old(self).storage is None {
                r matches Ok(None) && final(self)@ == with_message(
                    old(self)@,
                    "本地数据目录不可用，无法添加账号"@,
                )
            } else {
                final(self)@ == old(self)@ && if old(self).storage->0.all_keep_own_home(
                    old(self).config.accounts@,
                ) {
                    r matches Ok(Some(account)) && account.id != 0 && account.display_name@
                        == new_name(name@, old(self)@.accounts.len()) && account.state_dir@
                        == old(self).storage->0.home(account.id) && account.enabled && account.order
                        == old(self)@.accounts.len() as u32 && account.last_success is None
                        && account.last_attempt_at is None
                } else {
                    r matches Err(e) && old(self).storage->0.is_first_misplaced(
                        old(self).config.accounts@,
                        e@,
                    )
                }
            },
    {
        if self.worker.any_active() {
            self.set_message("请等待当前账号操作完成");
            return Ok(None);
        }
        let count: usize = self.config.accounts.len();
        match &self.storage {
            None => {
                self.set_message("本地数据目录不可用，无法添加账号");
                Ok(None)
            },
            Some(storage) => {
                match storage.validate_managed_accounts(&self.config.accounts) {
                    Ok(_) => {},
                    Err(e) => {
                        return Err(e);
                    },
                }
                let short = trim_text(name);
                let display_name = if short.as_str().is_empty() {
                    let mut out = "账号 ".to_owned();
                    out.append(digits_text(count as u128 + 1).as_str());
                    out
                } else {
                    short
                };
                Ok(Some(storage.new_account(display_name, count as u32)))
            },
        }
    }

    /// Keeps an account that was added.
    pub fn keep_account(&mut self, account: AccountRecord)
        ensures
            final(self)@ == (AppModel {
                accounts: old(self)@.accounts.push(account_model(account)),
                runtimes: old(self)@.runtimes.insert(account.id, RuntimeModel::fresh()),
                add_dialog: None,
                ..old(self)@
            }),
    {
        let ghost before = self@.accounts;
        self.put_runtime(account.id, AccountRuntime::default());
        self.config.accounts.push(account);
        assert(account_models(self.config.accounts@) =~= before.push(account_model(account)));
        self.add_dialog = None;
    }

    /// Renames an account; gives whether the configuration is to be written.
    pub fn rename_account(&mut self, id: u128, name: &str) -> (r: bool)
        ensures
            if old(self)@.is_busy() {
                !r && final(self)@ == with_message(old(self)@, "请等待当前账号操作完成"@)
            } else {
                let closed = AppModel { edit_dialog: None, ..old(self)@ };
                if index_of(old(self)@.accounts, id) is Some && trimmed(name@).len() > 0 {
                    r && final(self)@ == with_account(
                        closed,
                        id,
                        |a: AccountModel| AccountModel { display_name: trimmed(name@), ..a },
                    )
                } else {
                    !r && final(self)@ == closed
                }
            },
    {
        if self.worker.any_active() {
            self.set_message("请等待当前账号操作完成");
            return false;
        }
        let mut save = false;
        if let Some(i) = find_index(&self.config.accounts, id) {
            let short = trim_text(name);
            if !short.as_str().is_empty() {
                let ghost before = account_models(self.config.accounts@);
                self.config.accounts[i].display_name = short;
                assert(account_models(self.config.accounts@) =~= before.update(
                    i as int,
                    AccountModel { display_name: trimmed(name@), ..before[i as int] },
                ));
                save = true;
            }
        }
        self.edit_dialog = None;
        save
    }

    /// Lets an account take part in refreshes or not; gives whether the
    /// configuration is to be written.
    pub fn set_account_enabled(&mut self, id: u128, enabled: bool) -> (r: bool)
        ensures
            enabled_set(old(self)@, final(self)@, id, enabled, r),
    {
        if self.worker.any_active() {
            self.set_message("请等待当前账号操作完成");
            return false;
        }
        match find_index(&self.config.accounts, id) {
            Some(i) => {
                let ghost before = account_models(self.config.accounts@);
                self.config.accounts[i].enabled = enabled;
                assert(account_models(self.config.accounts@) =~= before.update(
                    i as int,
                    AccountModel { enabled, ..before[i as int] },
                ));
                true
            },
            None => false,
        }
    }

    /// Decides how an account is deleted. Only its own home may be deleted with it.
    pub fn delete_account(&mut self, id: u128, delete_credentials: bool) -> (r: Result<
        Deletion,
        AppError,
    >)
        requires
            old(self).storage matches Some(storage) ==> storage.well_formed(),
        ensures
            if old(self)@.is_busy() {
                r matches Ok(Deletion::Nothing) && final(self)@ == with_message(
                    old(self)@,
                    "请等待当前账号操作完成"@,
                )
            } else {
                match index_of(old(self)@.accounts, id) {
                    None => r matches Ok(Deletion::Nothing) && final(self)@ == (AppModel {
                        delete_dialog: None,
                        ..old(self)@
                    }),
                    Some(i) => final(self)@ == old(self)@ && if !delete_credentials
                        || old(self).storage is None {
                        r matches Ok(Deletion::Forget)
                    } else if old(self).storage->0.keeps_own_home(
                        old(self).config.accounts@[i],
                    ) {
                        r matches Ok(Deletion::RemoveHome(path)) && path@
                            == old(self).storage->0.home(id)
                    } else {
                        r matches Err(e) && e@ == ErrorModel::Storage(
                            "拒绝删除不属于本应用的目录"@,
                        )
                    },
                }
            },
    {
        if self.worker.any_active() {
            self.set_message("请等待当前账号操作完成");
            return Ok(Deletion::Nothing);
        }
        let i: usize = match find_index(&self.config.accounts, id) {
            Some(i) => i,
            None => {
                self.delete_dialog = None;
                return Ok(Deletion::Nothing);
            },
        };
        proof {
            lemma_index_of(self@.accounts, id);
        }
        if delete_credentials {
            if let Some(storage) = &self.storage {
                return match storage.delete_account_home(&self.config.accounts[i]) {
                    Ok(path) => Ok(Deletion::RemoveHome(path)),
                    Err(e) => Err(e),
                };
            }
        }
        Ok(Deletion::Forget)
    }

    fn reindex_accounts(&mut self)
        ensures
            final(self)@ == (AppModel { accounts: reindexed(old(self)@.accounts), ..old(self)@ }),
    {
        let ghost all = account_models(self.config.accounts@);
        let mut i: usize = 0;
        while i < self.config.accounts.len()
            invariant
                all == account_models(old(self).config.accounts@),
                self.config.accounts@.len() == all.len(),
                i <= all.len(),
                self@ == (AppModel { accounts: self@.accounts, ..old(self)@ }),
                forall|j: int|
                    0 <= j < i ==> account_model(#[trigger] self.config.accounts@[j])
                        == reindexed(all)[j],
                forall|j: int|
                    i <= j < all.len() ==> account_model(#[trigger] self.config.accounts@[j])
                        == all[j],
            decreases all.len() - i,
        {
            self.config.accounts[i].order = i as u32;
            i = i + 1;
        }
        assert(self@.accounts =~= reindexed(all));
    }

    /// Forgets an account.
    pub fn forget_account(&mut self, id: u128)
        ensures
            final(self)@ == forgotten(old(self)@, id),
    {
        if let Some(i) = find_index(&self.config.accounts, id) {
            let ghost before = account_models(self.config.accounts@);
            self.config.accounts.remove(i);
            assert(account_models(self.config.accounts@) =~= before.remove(i as int));
            let ghost known = self.runtimes@;
            self.runtimes.remove(&id);
            assert(self.runtimes@.map_values(|r: AccountRuntime| r@) =~= known.map_values(
                |r: AccountRuntime| r@,
            ).remove(id));
            if let Some(active) = self.config.last_active_desktop_account_id {
                if active == id {
                    self.config.last_active_desktop_account_id = None;
                    self.desktop_account_state = DesktopAccountState::Unmanaged;
                }
            }
            self.reindex_accounts();
        }
        self.delete_dialog = None;
    }

    /// Keeps the settings; gives whether the configuration is to be written and
    /// the program of the service to be looked for again.
    pub fn apply_settings(&mut self) -> (r: bool)
        ensures
            r == !old(self)@.is_busy(),
            final(self)@ == (if old(self)@.is_busy() {
                with_message(old(self)@, "请等待当前账号操作完成后再保存设置"@)
            } else {
                with_settings_kept(old(self)@)
            }),
    {
        if self.worker.any_active() {
            self.set_message("请等待当前账号操作完成后再保存设置");
            return false;
        }
        self.config.settings.custom_codex_path = fill(self.settings_path_buffer.as_str());
        self.config.settings.desktop_codex_home = fill(self.desktop_home_buffer.as_str());
        if self.config.settings.request_timeout_seconds < 5 {
            self.config.settings.request_timeout_seconds = 5;
        } else if self.config.settings.request_timeout_seconds > 120 {
            self.config.settings.request_timeout_seconds = 120;
        }
        if self.config.settings.stale_after_minutes < 1 {
            self.config.settings.stale_after_minutes = 1;
        } else if self.config.settings.stale_after_minutes > 1_440 {
            self.config.settings.stale_after_minutes = 1_440;
        }
        if self.config.settings.desktop_switch_enabled {
            self.desktop_account_state = DesktopAccountState::Checking;
        } else {
            self.desktop_account_state = DesktopAccountState::Disabled;
            self.config.last_active_desktop_account_id = None;
        }
        true
    }

    /// Chooses other colours; gives whether they are others.
    pub fn set_theme_preference(&mut self, preference: ThemePreference) -> (r: bool)
        ensures
            r == (old(self)@.settings.theme != preference),
            final(self)@ == (AppModel {
                settings: SettingsModel { theme: preference, ..old(self)@.settings },
                ..old(self)@
            }),
    {
        if self.config.settings.theme == preference {
            return false;
        }
        self.config.settings.theme = preference;
        true
    }

    /// The home of the desktop application.
    pub fn desktop_codex_home(&self, style: PathStyle, user_home: &Option<String>) -> (r: Result<
        String,
        AppError,
    >)
        ensures
            match r {
                Ok(path) => desktop_home_of(self@, style, *user_home) == Ok::<
                    Seq<char>,
                    ErrorModel,
                >(path@),
                Err(e) => desktop_home_of(self@, style, *user_home) == Err::<Seq<char>, ErrorModel>(
                    e@,
                ),
            },
    {
        match &self.config.settings.desktop_codex_home {
            Some(path) => if is_absolute(style, path.as_str()) {
                Ok(path.clone())
            } else {
                Err(
                    AppError::DesktopSwitch("自定义全局 Codex Home 必须填写绝对路径".to_owned()),
                )
            },
            None => default_global_codex_home(style, user_home),
        }
    }

    /// Prepares a switch of the desktop application to an account. The work is
    /// still to be reserved once the account's home is there.
    pub fn begin_desktop_switch(
        &mut self,
        id: u128,
        style: PathStyle,
        user_home: &Option<String>,
    ) -> (r: Result<Option<DesktopOrder>, AppError>)
        requires
            old(self).storage matches Some(storage) ==> storage.well_formed(),
        ensures
            switch_prepared(*old(self), final(self)@, id, style, *user_home, r),
    {
        if !self.config.settings.desktop_switch_enabled {
            self.set_message("请先在设置中启用桌面账号切换");
            return Ok(None);
        }
        if self.worker.any_active() {
            self.set_message("请等待当前账号操作完成");
            return Ok(None);
        }
        let codex_path = match self.codex_path() {
            Some(path) => path,
            None => {
                self.set_message("Codex 不可用，无法切换桌面账号");
                return Ok(None);
            },
        };
        let i: usize = match find_index(&self.config.accounts, id) {
            Some(i) => i,
            None => {
                return Ok(None);
            },
        };
        proof {
            lemma_index_of(self@.accounts, id);
        }
        match &self.storage {
            None => {
                self.set_message("本地数据目录不可用，无法创建恢复副本");
                Ok(None)
            },
            Some(storage) => {
                match storage.validate_managed_accounts(&self.config.accounts) {
                    Ok(_) => {},
                    Err(e) => {
                        return Err(e);
                    },
                }
                assert(storage.keeps_own_home(self.config.accounts@[i as int]));
                let home = match storage.ensure_account_home(&self.config.accounts[i]) {
                    Ok(path) => path,
                    Err(e) => {
                        return Err(e);
                    },
                };
                match self.desktop_codex_home(style, user_home) {
                    Ok(global_home) => Ok(
                        Some(
                            DesktopOrder {
                                target: Some(i),
                                codex_path,
                                global_home,
                                recovery_root: storage.recovery_root().clone(),
                                timeout_seconds: self.config.settings.request_timeout_seconds,
                                home: Some(home),
                            },
                        ),
                    ),
                    Err(e) => Err(e),
                }
            },
        }
    }

    /// Begins a look at the desktop application, where that is on.
    pub fn start_desktop_inspection(&mut self, style: PathStyle, user_home: &Option<String>) -> (r:
        Result<Option<DesktopOrder>, AppError>)
        requires
            old(self).storage matches Some(storage) ==> storage.well_formed(),
        ensures
            if !old(self)@.settings.desktop_switch_enabled || program_of(old(self)@) is None {
                r matches Ok(None) && final(self)@ == old(self)@
            } else if old(self).storage is Some && !old(self).storage->0.all_keep_own_home(
                old(self).config.accounts@,
            ) {
                r matches Err(e) && old(self).storage->0.is_first_misplaced(
                    old(self).config.accounts@,
                    e@,
                ) && final(self)@ == old(self)@
            } else {
                match desktop_home_of(old(self)@, style, *user_home) {
                    Err(fault) => r matches Err(e) && e@ == fault && final(self)@ == old(self)@,
                    Ok(home) => if old(self)@.is_busy() {
                        r matches Ok(None) && final(self)@ == (AppModel {
                            desktop: DesktopModel::Checking,
                            ..old(self)@
                        })
                    } else {
                        final(self)@ == (AppModel {
                            desktop: DesktopModel::Checking,
                            desktop_operation: Some(DesktopOperation::Inspect),
                            ..old(self)@
                        }) && (r matches Ok(Some(order)) && order.target is None && Some(
                            order.codex_path@,
                        ) == program_of(old(self)@) && order.global_home@ == home
                            && order.recovery_root@.len() == 0 && order.timeout_seconds
                            == old(self)@.settings.request_timeout_seconds && order.home is None)
                    },
                }
            },
    {
        if !self.config.settings.desktop_switch_enabled {
            return Ok(None);
        }
        let codex_path = match self.codex_path() {
            Some(path) => path,
            None => {
                return Ok(None);
            },
        };
        if let Some(storage) = &self.storage {
            match storage.validate_managed_accounts(&self.config.accounts) {
                Ok(_) => {},
                Err(e) => {
                    return Err(e);
                },
            }
        }
        let global_home = match self.desktop_codex_home(style, user_home) {
            Ok(path) => path,
            Err(e) => {
                return Err(e);
            },
        };
        self.desktop_account_state = DesktopAccountState::Checking;
        if !self.worker.reserve_desktop_operation(DesktopOperation::Inspect) {
            return Ok(None);
        }
        Ok(
            Some(
                DesktopOrder {
                    target: None,
                    codex_path,
                    global_home,
                    recovery_root: String::new(),
                    timeout_seconds: self.config.settings.request_timeout_seconds,
                    home: None,
                },
            ),
        )
    }
}

/// Why no switch to an account begins, with what the user is told.
pub open spec fn switch_refusal(app: AppModel, id: u128) -> Option<Option<Seq<char>>> {
    if !app.settings.desktop_switch_enabled {
        Some(Some("请先在设置中启用桌面账号切换"@))
    } else if app.is_busy() {
        Some(Some("请等待当前账号操作完成"@))
    } else if program_of(app) is None {
        Some(Some("Codex 不可用，无法切换桌面账号"@))
    } else if index_of(app.accounts, id) is None {
        Some(None)
    } else if app.storage is None {
        Some(Some("本地数据目录不可用，无法创建恢复副本"@))
    } else {
        None
    }
}

/// Whether work on an account began as it should: only with no other work going
/// on and on an account that is kept.
pub open spec fn began(
    before: AppModel,
    after: AppModel,
    id: u128,
    r: Option<AccountOrder>,
) -> bool {
    if index_of(before.accounts, id) is None || before.is_busy() {
        r is None && after == before
    } else {
        after == (AppModel { active: seq![id], ..before }) && (r matches Some(order)
            && is_order_for(order, before, id) && order.home is None)
    }
}

/// Whether a refresh of one account began as it should.
pub open spec fn refreshed_one(
    before: AppModel,
    after: AppModel,
    id: u128,
    r: Option<AccountOrder>,
) -> bool {
    if program_of(before) is None {
        r is None && after == with_message(before, "Codex 不可用，无法刷新账号"@)
    } else {
        began(before, after, id, r)
    }
}

/// Whether a logout began as it should.
pub open spec fn logged_out(
    before: AppModel,
    after: AppModel,
    id: u128,
    r: Option<AccountOrder>,
) -> bool {
    if program_of(before) is None {
        r is None && after == with_message(before, "Codex 不可用，无法退出登录"@)
    } else {
        began(before, after, id, r)
    }
}

/// Whether a login was prepared as it should be: with the program of the
/// service, for an account that is kept, and with the home that belongs to it.
pub open spec fn login_prepared(
    before: MonitorApp,
    after: AppModel,
    id: u128,
    r: Result<Option<AccountOrder>, AppError>,
) -> bool {
    if program_of(before@) is None {
        r matches Ok(None) && after == with_message(before@, "Codex 不可用，无法开始登录"@)
    } else {
        after == before@ && match index_of(before@.accounts, id) {
            None => r matches Ok(None),
            Some(i) => match before.storage {
                None => r matches Ok(Some(order)) && is_order_for(order, before@, id)
                    && order.home is None,
                Some(storage) => if storage.keeps_own_home(before.config.accounts@[i]) {
                    r matches Ok(Some(order)) && is_order_for(order, before@, id) && text_of(
                        order.home,
                    ) == Some(storage.home(id))
                } else {
                    r matches Err(e) && e@ == ErrorModel::Storage(
                        "账号目录不在受管数据目录中："@ + before@.accounts[i].state_dir,
                    )
                },
            },
        }
    }
}

/// Whether a switch was prepared as it should be.
pub open spec fn switch_prepared(
    before: MonitorApp,
    after: AppModel,
    id: u128,
    style: PathStyle,
    user_home: Option<String>,
    r: Result<Option<DesktopOrder>, AppError>,
) -> bool {
    &&& after == (match switch_refusal(before@, id) {
        Some(Some(words)) => with_message(before@, words),
        _ => before@,
    })
    &&& match switch_refusal(before@, id) {
        Some(_) => r matches Ok(None),
        None => {
            let i = index_of(before@.accounts, id)->0;
            let storage = before.storage->0;
            if !storage.all_keep_own_home(before.config.accounts@) {
                r matches Err(e) && storage.is_first_misplaced(before.config.accounts@, e@)
            } else {
                match desktop_home_of(before@, style, user_home) {
                    Err(fault) => r matches Err(e) && e@ == fault,
                    Ok(home) => {
                        &&& r matches Ok(Some(order))
                        &&& order.target == Some(i as usize)
                        &&& Some(order.codex_path@) == program_of(before@)
                        &&& order.global_home@ == home
                        &&& order.recovery_root@ == below(
                            storage.style,
                            storage.root@,
                            "desktop-auth-recovery"@,
                        )
                        &&& order.timeout_seconds == before@.settings.request_timeout_seconds
                        &&& text_of(order.home) == Some(storage.home(id))
                    },
                }
            }
        },
    }
}

/// Whether an account was let take part in refreshes or not as it should be.
pub open spec fn enabled_set(
    before: AppModel,
    after: AppModel,
    id: u128,
    enabled: bool,
    r: bool,
) -> bool {
    if before.is_busy() {
        !r && after == with_message(before, "请等待当前账号操作完成"@)
    } else {
        r == (index_of(before.accounts, id) is Some) && after == with_account(
            before,
            id,
            |a: AccountModel| AccountModel { enabled, ..a },
        )
    }
}

/// Whether an order is for an account as it is kept.
pub open spec fn is_order_for(order: AccountOrder, app: AppModel, id: u128) -> bool {
    &&& order.account_id == id
    &&& index_of(app.accounts, id) matches Some(i) && order.state_dir@ == app.accounts[i].state_dir
    &&& Some(order.codex_path@) == program_of(app)
    &&& order.timeout_seconds == app.settings.request_timeout_seconds
}

/// Whether jobs are those of the enabled accounts, in order.
pub open spec fn is_refresh_of(jobs: Seq<RefreshJob>, accounts: Seq<AccountRecord>) -> bool {
    let places = crate::worker::enabled_places(accounts);
    &&& jobs.len() == places.len()
    &&& forall|k: int|
        0 <= k < jobs.len() ==> (#[trigger] jobs[k]).account_id == accounts[places[k]].id
            && jobs[k].state_dir == accounts[places[k]].state_dir
}

/// A failure leaves the last success of every account as it was.
pub proof fn lemma_failure_keeps_last_success(
    app: AppModel,
    id: u128,
    operation: OperationKind,
    failure: crate::worker::WorkerFailure,
    now: Timestamp,
    i: int,
)
    requires
        0 <= i < app.accounts.len(),
    ensures
        ({
            let after = after_event(
                app,
                WorkerEvent::Failed { account_id: id, operation, failure },
                now,
            );
            &&& after.accounts.len() == app.accounts.len()
            &&& after.accounts[i].last_success == app.accounts[i].last_success
        }),
{
    lemma_index_of(app.accounts, id);
}

/// The account that an event is about.
pub open spec fn subject_of(event: WorkerEvent) -> Option<u128> {
    match event {
        WorkerEvent::CodexDetected(_) => None,
        WorkerEvent::Started { account_id, operation, step } => Some(account_id),
        WorkerEvent::Step { account_id, step } => Some(account_id),
        WorkerEvent::LoginChallenge { account_id, challenge } => Some(account_id),
        WorkerEvent::BrowserOpenFailed { account_id, detail } => Some(account_id),
        WorkerEvent::QueryFinished { account_id, data } => Some(account_id),
        WorkerEvent::LoginFinished { account_id, data } => Some(account_id),
        WorkerEvent::LogoutFinished { account_id } => Some(account_id),
        WorkerEvent::DesktopInspected { inspection, verified_identity } => match inspection.owner {
            CredentialOwner::Managed(id) => Some(id),
            _ => None,
        },
        WorkerEvent::DesktopSwitchFinished {
            account_id,
            identity,
            recovery_path,
            already_active,
            warning,
        } => Some(account_id),
        WorkerEvent::Failed { account_id, operation, failure } => Some(account_id),
    }
}

/// An event changes no account but the one that it is about, and neither the
/// settings nor whether the configuration is written.
#[verifier::spinoff_prover]
#[verifier::rlimit(30)]
pub proof fn lemma_event_changes_no_other_account(
    app: AppModel,
    event: WorkerEvent,
    now: Timestamp,
    i: int,
    other: u128,
)
    requires
        0 <= i < app.accounts.len(),
        subject_of(event) != Some(app.accounts[i].id),
        subject_of(event) != Some(other),
    ensures
        ({
            let after = after_event(app, event, now);
            &&& after.accounts.len() == app.accounts.len()
            &&& after.accounts[i] == app.accounts[i]
            &&& runtime_of(after, other) == runtime_of(app, other)
            &&& after.settings == app.settings
            &&& after.keeps_config == app.keeps_config
        }),
{
    if let Some(id) = subject_of(event) {
        lemma_index_of(app.accounts, id);
    }
}

/// After an account was forgotten the others are numbered by their places, in
/// the order that they had and otherwise as they were, and nothing is known of the
/// one any more. Of the others everything stays known, and the desktop application
/// stays on whose account it is.
pub proof fn lemma_forgotten(app: AppModel, id: u128)
    requires
        index_of(app.accounts, id) is Some,
        app.accounts.len() <= u32::MAX,
    ensures
        forgotten(app, id).accounts.len() + 1 == app.accounts.len(),
        forall|i: int|
            0 <= i < forgotten(app, id).accounts.len() ==> (#[trigger] forgotten(
                app,
                id,
            ).accounts[i]).order == i && forgotten(app, id).accounts[i].id == (if i < index_of(
                app.accounts,
                id,
            )->0 {
                app.accounts[i].id
            } else {
                app.accounts[i + 1].id
            }),
        forall|i: int|
            0 <= i < forgotten(app, id).accounts.len() ==> is_same_account(
                #[trigger] forgotten(app, id).accounts[i],
                app.accounts[if i < index_of(app.accounts, id)->0 {
                    i
                } else {
                    i + 1
                }],
            ),
        !forgotten(app, id).runtimes.dom().contains(id),
        forall|other: u128|
            other != id ==> #[trigger] runtime_of(forgotten(app, id), other) == runtime_of(app, other),
        forgotten(app, id).last_active != Some(id),
        app.last_active != Some(id) ==> forgotten(app, id).last_active == app.last_active
            && forgotten(app, id).desktop == app.desktop,
        app.last_active == Some(id) ==> forgotten(app, id).desktop == DesktopModel::Unmanaged,
        forgotten(app, id).settings == app.settings,
        forgotten(app, id).delete_dialog is None,
{
    lemma_index_of(app.accounts, id);
}

/// Whether an account is the same but for its number.
pub open spec fn is_same_account(a: AccountModel, b: AccountModel) -> bool {
    &&& a.id == b.id
    &&& a.display_name == b.display_name
    &&& a.state_dir == b.state_dir
    &&& a.enabled == b.enabled
    &&& a.last_success == b.last_success
    &&& a.last_attempt_at == b.last_attempt_at
}

/// Settings that were kept are within their limits and stay as they are when
/// they are kept again; numbers that are within them are kept as they are, others
/// as the nearest limit. Paths are kept without white space at their ends, and
/// none where that leaves nothing. All else is kept as it is.
pub proof fn lemma_settings_are_within_limits(app: AppModel)
    ensures
        ({
            let kept = with_settings_kept(app);
            &&& 5 <= kept.settings.request_timeout_seconds <= 120
            &&& 1 <= kept.settings.stale_after_minutes <= 1_440
            &&& with_settings_kept(kept) == kept
            &&& 5 <= app.settings.request_timeout_seconds <= 120
                ==> kept.settings.request_timeout_seconds == app.settings.request_timeout_seconds
            &&& app.settings.request_timeout_seconds < 5 ==> kept.settings.request_timeout_seconds
                == 5
            &&& app.settings.request_timeout_seconds > 120 ==> kept.settings.request_timeout_seconds
                == 120
            &&& 1 <= app.settings.stale_after_minutes <= 1_440 ==> kept.settings.stale_after_minutes
                == app.settings.stale_after_minutes
            &&& app.settings.stale_after_minutes < 1 ==> kept.settings.stale_after_minutes == 1
            &&& app.settings.stale_after_minutes > 1_440 ==> kept.settings.stale_after_minutes
                == 1_440
            &&& trimmed(app.path_buffer).len() > 0 ==> kept.settings.custom_codex_path == Some(
                trimmed(app.path_buffer),
            )
            &&& trimmed(app.path_buffer).len() == 0 ==> kept.settings.custom_codex_path is None
            &&& trimmed(app.home_buffer).len() > 0 ==> kept.settings.desktop_codex_home == Some(
                trimmed(app.home_buffer),
            )
            &&& trimmed(app.home_buffer).len() == 0 ==> kept.settings.desktop_codex_home is None
            &&& kept.settings.theme == app.settings.theme
            &&& kept.settings.auto_refresh_on_start == app.settings.auto_refresh_on_start
            &&& kept.settings.desktop_switch_enabled == app.settings.desktop_switch_enabled
            &&& kept.accounts == app.accounts
            &&& app.settings.desktop_switch_enabled ==> kept.desktop == DesktopModel::Checking
                && kept.last_active == app.last_active
            &&& !app.settings.desktop_switch_enabled ==> kept.desktop == DesktopModel::Disabled
                && kept.last_active is None
        }),
{
    let kept = with_settings_kept(app);
    assert(with_settings_kept(kept) =~= kept);
}

/// A refresh of all has one job for every enabled account, in its own home, and
/// none for any other.
pub proof fn lemma_refresh_covers_the_enabled(
    jobs: Seq<RefreshJob>,
    accounts: Seq<AccountRecord>,
    i: int,
    k: int,
)
    requires
        is_refresh_of(jobs, accounts),
    ensures
        0 <= i < accounts.len() && accounts[i].enabled ==> exists|j: int|
            0 <= j < jobs.len() && (#[trigger] jobs[j]).account_id == accounts[i].id
                && jobs[j].state_dir == accounts[i].state_dir,
        0 <= k < jobs.len() ==> exists|j: int|
            0 <= j < accounts.len() && (#[trigger] accounts[j]).enabled && accounts[j].id
                == jobs[k].account_id && accounts[j].state_dir == jobs[k].state_dir,
{
    let places = crate::worker::enabled_places(accounts);
    crate::worker::lemma_enabled_accounts_are_refreshed(accounts);
    if 0 <= i < accounts.len() && accounts[i].enabled {
        assert(places.contains(i));
        let j = choose|j: int| 0 <= j < places.len() && places[j] == i;
        assert(jobs[j].account_id == accounts[i].id);
    }
    if 0 <= k < jobs.len() {
        let j = places[k];
        assert(places.contains(j));
        assert(accounts[j].enabled);
        assert(jobs[k].account_id == accounts[j].id);
    }
}

/// A query or a login that succeeded is kept with its time in the account that it
/// is of, and shown as such without any old error or challenge; all else of the
/// account is as it was.
pub proof fn lemma_success_is_kept(app: AppModel, id: u128, data: CachedAccountData, now: Timestamp)
    ensures
        ({
            let after = after_event(
                app,
                WorkerEvent::QueryFinished { account_id: id, data },
                now,
            );
            let runtime = runtime_of(after, id);
            &&& after == after_event(app, WorkerEvent::LoginFinished { account_id: id, data }, now)
            &&& index_of(app.accounts, id) matches Some(i) ==> {
                let old_one = app.accounts[i];
                let new_one = after.accounts[i];
                &&& new_one.last_success == Some(data) && new_one.last_attempt_at == Some(now)
                &&& new_one.id == old_one.id && new_one.display_name == old_one.display_name
                &&& new_one.state_dir == old_one.state_dir && new_one.enabled == old_one.enabled
                &&& new_one.order == old_one.order
            }
            &&& runtime.status == AccountStatus::Success
            &&& runtime.error_summary is None && runtime.diagnostic is None
            &&& runtime.login_challenge is None
            &&& after.last_global_refresh == Some(now)
            &&& app.settings.desktop_switch_enabled ==> after.inspection_pending
            &&& !app.settings.desktop_switch_enabled ==> after.inspection_pending
                == app.inspection_pending
        }),
{
    lemma_index_of(app.accounts, id);
}

/// What failed is shown by its kind, and with its error unless the user gave up;
/// the time of the attempt is kept. A failed switch is told to the user, and the
/// desktop application is to be looked at again.
pub proof fn lemma_failure_is_shown(
    app: AppModel,
    id: u128,
    operation: OperationKind,
    failure: WorkerFailure,
    now: Timestamp,
)
    ensures
        ({
            let after = after_event(
                app,
                WorkerEvent::Failed { account_id: id, operation, failure },
                now,
            );
            let runtime = runtime_of(after, id);
            &&& operation == OperationKind::InspectDesktopAccount ==> after.accounts == app.accounts
                && after.runtimes == app.runtimes && after.desktop == DesktopModel::Error(
                failure.summary@,
            ) && !after.inspection_pending
            &&& operation != OperationKind::InspectDesktopAccount ==> {
                &&& failure.category == FailureCategory::Cancelled ==> runtime.status
                    == AccountStatus::Idle && runtime.error_summary is None
                    && runtime.diagnostic is None
                &&& failure.category != FailureCategory::Cancelled ==> runtime.error_summary == Some(
                    failure.summary@,
                ) && runtime.diagnostic == Some(failure.diagnostic@)
                &&& failure.category == FailureCategory::NotLoggedIn ==> runtime.status
                    == AccountStatus::NotLoggedIn
                &&& failure.category == FailureCategory::TimedOut ==> runtime.status
                    == AccountStatus::TimedOut
                &&& failure.category == FailureCategory::CodexUnavailable ==> runtime.status
                    == AccountStatus::CodexUnavailable
                &&& failure.category == FailureCategory::ProtocolIncompatible ==> runtime.status
                    == AccountStatus::ProtocolIncompatible
                &&& failure.category == FailureCategory::Other ==> runtime.status
                    == AccountStatus::Failed
                &&& runtime.login_challenge is None
                &&& index_of(app.accounts, id) matches Some(i) ==> after.accounts[i].last_attempt_at
                    == Some(now) && after.accounts[i].enabled == app.accounts[i].enabled
                    && after.accounts[i].display_name == app.accounts[i].display_name
                    && after.accounts[i].state_dir == app.accounts[i].state_dir
            }
            &&& operation == OperationKind::SwitchDesktopAccount ==> after.message == Some(
                failure.summary@,
            ) && after.diagnostic == Some(failure.diagnostic@) && after.desktop is Error
            &&& operation == OperationKind::Query || operation == OperationKind::Login || operation
                == OperationKind::Logout ==> after.message == app.message && after.desktop
                == app.desktop && after.diagnostic == app.diagnostic
            &&& after.last_active == app.last_active
        }),
{
    lemma_index_of(app.accounts, id);
}

/// An account that was logged out is shown as such, keeps what it last gave, and
/// the desktop application is looked at again where that is on.
pub proof fn lemma_logout_is_shown(app: AppModel, id: u128, now: Timestamp)
    ensures
        ({
            let after = after_event(app, WorkerEvent::LogoutFinished { account_id: id }, now);
            let runtime = runtime_of(after, id);
            &&& runtime.status == AccountStatus::NotLoggedIn
            &&& runtime.error_summary is None && runtime.diagnostic is None
            &&& runtime.login_challenge is None
            &&& index_of(app.accounts, id) matches Some(i) ==> after.accounts[i].last_attempt_at
                == Some(now) && after.accounts[i].last_success == app.accounts[i].last_success
                && after.accounts[i].enabled == app.accounts[i].enabled
            &&& app.settings.desktop_switch_enabled ==> after.inspection_pending
        }),
{
    lemma_index_of(app.accounts, id);
}

/// While work goes on its step is shown, and a challenge stays until the work ends;
/// the configuration does not change.
pub proof fn lemma_steps_are_shown(
    app: AppModel,
    id: u128,
    operation: OperationKind,
    step: &'static str,
    challenge: crate::account::LoginChallenge,
    detail: String,
    now: Timestamp,
)
    ensures
        ({
            let begun = after_event(
                app,
                WorkerEvent::Started { account_id: id, operation, step },
                now,
            );
            let gone_on = after_event(app, WorkerEvent::Step { account_id: id, step }, now);
            let challenged = after_event(
                app,
                WorkerEvent::LoginChallenge { account_id: id, challenge },
                now,
            );
            let unopened = after_event(
                app,
                WorkerEvent::BrowserOpenFailed { account_id: id, detail },
                now,
            );
            &&& runtime_of(begun, id).status == AccountStatus::Querying(step)
            &&& runtime_of(begun, id).error_summary is None
            &&& runtime_of(begun, id).diagnostic is None
            &&& operation == OperationKind::SwitchDesktopAccount ==> begun.desktop
                == DesktopModel::Checking
            &&& operation != OperationKind::SwitchDesktopAccount ==> begun.desktop == app.desktop
            &&& runtime_of(gone_on, id).status == AccountStatus::Querying(step)
            &&& runtime_of(gone_on, id).login_challenge == runtime_of(app, id).login_challenge
            &&& runtime_of(gone_on, id).error_summary == runtime_of(app, id).error_summary
            &&& runtime_of(challenged, id).login_challenge == Some(challenge)
            &&& runtime_of(challenged, id).status == runtime_of(app, id).status
            &&& runtime_of(unopened, id).error_summary is Some
            &&& runtime_of(unopened, id).diagnostic == Some(redacted(detail@))
            &&& runtime_of(unopened, id).login_challenge == runtime_of(app, id).login_challenge
            &&& begun.accounts == app.accounts && gone_on.accounts == app.accounts
            &&& challenged.accounts == app.accounts && unopened.accounts == app.accounts
        }),
{
}

/// The desktop application is on the managed account that a look tells, on none
/// that is managed where the look tells none or more than one, and on none at all
/// without credentials. What the service says of the account is kept with the
/// quota that was there.
pub proof fn lemma_inspection_is_kept(
    app: AppModel,
    inspection: DesktopCredentialInspection,
    identity: AccountIdentity,
    now: Timestamp,
)
    ensures
        ({
            let after = after_event(
                app,
                WorkerEvent::DesktopInspected { inspection, verified_identity: Some(identity) },
                now,
            );
            &&& inspection.owner matches CredentialOwner::Managed(id) ==> {
                &&& after.desktop == DesktopModel::Managed(id) && after.last_active == Some(id)
                &&& index_of(app.accounts, id) matches Some(i) ==> (
                app.accounts[i].last_success matches Some(cache) ==> (
                after.accounts[i].last_success matches Some(kept) && kept.identity == identity
                    && kept.quota == cache.quota)) && (app.accounts[i].last_success is None
                    ==> after.accounts[i].last_success is None)
            }
            &&& inspection.owner == CredentialOwner::Missing ==> after.desktop
                == DesktopModel::Missing
            &&& inspection.owner == CredentialOwner::Unmanaged || inspection.owner
                == CredentialOwner::Ambiguous ==> after.desktop == DesktopModel::Unmanaged
            &&& !(inspection.owner is Managed) ==> after.last_active is None && after.accounts
                == app.accounts
            &&& after.runtimes == app.runtimes && after.message == app.message
        }),
{
    if let CredentialOwner::Managed(id) = inspection.owner {
        lemma_index_of(app.accounts, id);
    }
}

/// After a switch the desktop application is on the account that it went to, which
/// is told by its name and address and with any warning; the quota that was there
/// stays.
pub proof fn lemma_switch_is_kept(
    app: AppModel,
    id: u128,
    identity: AccountIdentity,
    recovery_path: Option<String>,
    already_active: bool,
    warning: Option<String>,
    now: Timestamp,
)
    ensures
        ({
            let after = after_event(
                app,
                WorkerEvent::DesktopSwitchFinished {
                    account_id: id,
                    identity,
                    recovery_path,
                    already_active,
                    warning,
                },
                now,
            );
            let runtime = runtime_of(after, id);
            &&& after.desktop == DesktopModel::Managed(id) && after.last_active == Some(id)
            &&& runtime.status == AccountStatus::Success
            &&& runtime.error_summary == text_of(warning)
            &&& recovery_path matches Some(path) ==> (runtime.diagnostic matches Some(words) && ends(
                words,
                path@,
            ))
            &&& recovery_path is None ==> runtime.diagnostic is None
            &&& after.message matches Some(words) && holds(words, named(after, id)) && (
            !already_active && warning is Some ==> ends(words, warning->0@))
            &&& index_of(app.accounts, id) matches Some(i) ==> holds(
                named(after, id),
                app.accounts[i].display_name,
            ) && (app.accounts[i].last_success matches Some(cache) ==> (
            after.accounts[i].last_success matches Some(kept) && kept.identity == identity
                && kept.quota == cache.quota) && (identity.email matches Some(email) ==> ends(
                named(after, id),
                email@,
            )))
        }),
{
    lemma_index_of(app.accounts, id);
    let after = after_event(
        app,
        WorkerEvent::DesktopSwitchFinished {
            account_id: id,
            identity,
            recovery_path,
            already_active,
            warning,
        },
        now,
    );
    let seen = identified(
        AppModel { desktop: DesktopModel::Managed(id), last_active: Some(id), ..app },
        id,
        identity,
    );
    lemma_index_of(seen.accounts, id);
    assert(index_of(seen.accounts, id) == index_of(app.accounts, id)) by {
        if let Some(i) = index_of(app.accounts, id) {
            assert(seen.accounts[i].id == id);
            if let Some(k) = index_of(seen.accounts, id) {
                assert(app.accounts[k].id == id);
            }
        } else {
            assert(seen.accounts == app.accounts);
        }
    }
    let name = named(seen, id);
    assert(named(after, id) == name);
    let words = after.message->0;
    let head = if already_active {
        "当前已是该账号："@
    } else {
        "已将桌面应用切换到："@
    };
    let at = head.len() as int;
    assert(words.subrange(at, at + name.len()) =~= name);
    assert(stands_at(words, name, at));
    if !already_active && warning is Some {
        let tail = warning->0@;
        assert(words.subrange(words.len() - tail.len(), words.len() as int) =~= tail);
    }
    if let Some(path) = recovery_path {
        let told = runtime_of(after, id).diagnostic->0;
        assert(told.subrange(told.len() - path@.len(), told.len() as int) =~= path@);
    }
    if let Some(i) = index_of(app.accounts, id) {
        let own = app.accounts[i].display_name;
        assert(seen.accounts[i].display_name == own);
        assert(name.subrange(0, own.len() as int) =~= own);
        assert(stands_at(name, own, 0));
        if app.accounts[i].last_success is Some && identity.email is Some {
            let email = identity.email->0@;
            assert(name.subrange(name.len() - email.len(), name.len() as int) =~= email);
        }
    }
}

/// A program of the service that was found is at hand, and the desktop application
/// is looked at where that is on; without one nothing is refreshed at the start.
pub proof fn lemma_detection_is_kept(
    app: AppModel,
    installation: CodexInstallation,
    failure: WorkerFailure,
    now: Timestamp,
)
    ensures
        ({
            let found = after_event(app, WorkerEvent::CodexDetected(Ok(installation)), now);
            let missed = after_event(app, WorkerEvent::CodexDetected(Err(failure)), now);
            &&& program_of(found) == Some(installation.path@)
            &&& found.auto_refresh_pending == app.auto_refresh_pending
            &&& app.settings.desktop_switch_enabled ==> found.inspection_pending && found.desktop
                == DesktopModel::Checking
            &&& !app.settings.desktop_switch_enabled ==> found.inspection_pending
                == app.inspection_pending && found.desktop == app.desktop
            &&& program_of(missed) is None && !missed.auto_refresh_pending
            &&& missed.codex_state matches CodexState::Unavailable { summary, diagnostic } && summary
                == failure.summary && diagnostic == failure.diagnostic
            &&& found.accounts == app.accounts && missed.accounts == app.accounts
        }),
{
}

/// Whatever changes an account or whose the desktop application is, is written.
pub proof fn lemma_changes_are_written(app: AppModel, event: WorkerEvent, now: Timestamp)
    ensures
        !saves_after(event) ==> after_event(app, event, now).accounts == app.accounts && after_event(
            app,
            event,
            now,
        ).last_active == app.last_active,
        event is QueryFinished || event is LoginFinished || event is LogoutFinished
            || event is DesktopInspected || event is DesktopSwitchFinished ==> saves_after(event),
{
}

/// Work on an account begins exactly with a program of the service, an account
/// that is kept, and no other work; it is then the only work, and it is of that
/// account in its own home. Otherwise nothing changes but what the user is told.
pub proof fn lemma_work_begins(before: AppModel, after: AppModel, id: u128, r: Option<AccountOrder>)
    requires
        refreshed_one(before, after, id, r) || logged_out(before, after, id, r),
    ensures
        r is Some <==> before.codex_state is Available && !before.is_busy() && exists|i: int|
            0 <= i < before.accounts.len() && (#[trigger] before.accounts[i]).id == id,
        r matches Some(order) ==> {
            &&& after.active == seq![id]
            &&& order.account_id == id
            &&& order.timeout_seconds == before.settings.request_timeout_seconds
            &&& before.codex_state matches CodexState::Available(installation) && order.codex_path@
                == installation.path@
            &&& exists|i: int|
                0 <= i < before.accounts.len() && (#[trigger] before.accounts[i]).id == id
                    && before.accounts[i].state_dir == order.state_dir@
        },
        r is None ==> after.active == before.active,
        after.accounts == before.accounts && after.settings == before.settings,
        before.codex_state is Available ==> after.message == before.message,
        !(before.codex_state is Available) ==> after.message is Some,
{
    lemma_index_of(before.accounts, id);
    if let Some(i) = index_of(before.accounts, id) {
        assert(before.accounts[i].id == id);
    }
}

/// A login is prepared exactly with a program of the service, for an account that
/// is kept, and in its own home; a home elsewhere is an error.
pub proof fn lemma_login_begins(
    before: MonitorApp,
    after: AppModel,
    id: u128,
    r: Result<Option<AccountOrder>, AppError>,
)
    requires
        login_prepared(before, after, id, r),
    ensures
        r matches Ok(Some(order)) ==> {
            &&& order.account_id == id
            &&& order.timeout_seconds == before@.settings.request_timeout_seconds
            &&& before@.codex_state matches CodexState::Available(installation) && order.codex_path@
                == installation.path@
            &&& exists|i: int|
                0 <= i < before@.accounts.len() && (#[trigger] before@.accounts[i]).id == id
                    && before@.accounts[i].state_dir == order.state_dir@
            &&& before.storage matches Some(storage) ==> text_of(order.home) == Some(
                storage.home(id),
            )
            &&& before.storage is None ==> order.home is None
        },
        r is Err ==> before.storage is Some,
        r matches Ok(None) ==> !(before@.codex_state is Available) || forall|i: int|
            0 <= i < before@.accounts.len() ==> (#[trigger] before@.accounts[i]).id != id,
        after.accounts == before@.accounts && after.active == before@.active,
{
    lemma_index_of(before@.accounts, id);
    if let Some(i) = index_of(before@.accounts, id) {
        assert(before@.accounts[i].id == id);
    }
}

/// A switch is prepared only where it is on, with no other work, with a program of
/// the service, for an account that is kept and a place for copies, and only where
/// every account keeps its own home; it goes to that account, and to the home that
/// the user chose or the one below theirs.
pub proof fn lemma_switch_begins(
    before: MonitorApp,
    after: AppModel,
    id: u128,
    style: PathStyle,
    user_home: Option<String>,
    r: Result<Option<DesktopOrder>, AppError>,
)
    requires
        switch_prepared(before, after, id, style, user_home, r),
    ensures
        r matches Ok(Some(order)) ==> {
            &&& before@.settings.desktop_switch_enabled && !before@.is_busy()
            &&& before@.codex_state matches CodexState::Available(installation) && order.codex_path@
                == installation.path@
            &&& order.timeout_seconds == before@.settings.request_timeout_seconds
            &&& before@.accounts.len() <= usize::MAX ==> (order.target matches Some(i) && i
                < before@.accounts.len() && before@.accounts[i as int].id == id)
            &&& before.storage matches Some(storage) && storage.all_keep_own_home(
                before.config.accounts@,
            ) && text_of(order.home) == Some(storage.home(id)) && order.recovery_root@ == below(
                storage.style,
                storage.root@,
                "desktop-auth-recovery"@,
            )
            &&& before@.settings.desktop_codex_home matches Some(path) ==> order.global_home@ == path
                && is_absolute_path(style, path)
            &&& before@.settings.desktop_codex_home is None ==> (user_home matches Some(home)
                && order.global_home@ == below(style, home@, ".codex"@))
        },
        r is Ok && r->Ok_0 is None ==> !before@.settings.desktop_switch_enabled || before@.is_busy()
            || !(before@.codex_state is Available) || before@.storage is None || forall|i: int|
            0 <= i < before@.accounts.len() ==> (#[trigger] before@.accounts[i]).id != id,
        r is Err ==> after == before@,
        r matches Err(e) ==> (before.storage matches Some(storage) && (storage.all_keep_own_home(
            before.config.accounts@,
        ) ==> match before@.settings.desktop_codex_home {
            Some(path) => !is_absolute_path(style, path),
            None => user_home is None,
        }) && (!storage.all_keep_own_home(before.config.accounts@) ==> storage.is_first_misplaced(
            before.config.accounts@,
            e@,
        ))),
        after.accounts == before@.accounts && after.active == before@.active && after.desktop
            == before@.desktop,
{
    lemma_index_of(before@.accounts, id);
}

/// An account is let take part in refreshes or not with no other work going on;
/// nothing else of it and no other account changes.
pub proof fn lemma_enabling(
    before: AppModel,
    after: AppModel,
    id: u128,
    enabled: bool,
    r: bool,
    i: int,
)
    requires
        enabled_set(before, after, id, enabled, r),
        0 <= i < before.accounts.len(),
        forall|j: int|
            0 <= j < before.accounts.len() && j != i ==> (#[trigger] before.accounts[j]).id != id,
    ensures
        after.accounts.len() == before.accounts.len(),
        forall|j: int|
            0 <= j < before.accounts.len() && j != i ==> #[trigger] after.accounts[j]
                == before.accounts[j],
        r <==> !before.is_busy() && before.accounts[i].id == id,
        r ==> after.accounts[i].enabled == enabled,
        !r ==> after.accounts[i] == before.accounts[i],
        is_same_account(
            AccountModel { enabled: true, ..after.accounts[i] },
            AccountModel { enabled: true, ..before.accounts[i] },
        ),
        after.accounts[i].order == before.accounts[i].order,
{
    lemma_index_of(before.accounts, id);
}

/// The home of the desktop application is the one that the user chose, where they
/// did, which has to be absolute, and else the one below their own home.
pub proof fn lemma_desktop_home(app: AppModel, style: PathStyle, user_home: Option<String>)
    ensures
        app.settings.desktop_codex_home matches Some(path) ==> (is_absolute_path(style, path)
            ==> desktop_home_of(app, style, user_home) == Ok::<Seq<char>, ErrorModel>(path)) && (
        !is_absolute_path(style, path) ==> desktop_home_of(app, style, user_home) is Err),
        app.settings.desktop_codex_home is None ==> (user_home matches Some(home)
            ==> desktop_home_of(app, style, user_home) == Ok::<Seq<char>, ErrorModel>(
            below(style, home@, ".codex"@),
        )) && (user_home is None ==> desktop_home_of(app, style, user_home) is Err),
{
}

/// An account is added under the name that was given, without white space at its
/// ends, and under its number where that leaves nothing.
pub proof fn lemma_new_name(name: Seq<char>, count: nat)
    ensures
        trimmed(name).len() > 0 ==> new_name(name, count) == trimmed(name),
        trimmed(name).len() == 0 ==> ends(new_name(name, count), digits(count + 1)) && begins(
            new_name(name, count),
            "账号 "@,
        ),
{
    if trimmed(name).len() == 0 {
        let words = new_name(name, count);
        let number = digits(count + 1);
        assert(words.subrange(words.len() - number.len(), words.len() as int) =~= number);
        assert(words.subrange(0, "账号 "@.len() as int) =~= "账号 "@);
    }
}

/// The application is busy exactly while an account is worked on or the desktop
/// application is.
pub proof fn lemma_when_busy(app: AppModel)
    ensures
        app.is_busy() <==> (exists|id: u128| app.active.contains(id)) || app.desktop_operation is Some,
{
    if app.active.len() > 0 {
        assert(app.active.contains(app.active[0]));
    }
}

} // verus!
