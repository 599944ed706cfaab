use codex_usage_monitor::account::{
    AccountIdentity, AccountStatus, CachedAccountData, LoginChallenge,
};
use codex_usage_monitor::account_switch::PathKind;
use codex_usage_monitor::app::{
    CodexState, DeleteDialog, DesktopAccountState, EditDialog, MonitorApp,
};
use codex_usage_monitor::codex_locator::CodexInstallation;
use codex_usage_monitor::error::AppError;
use codex_usage_monitor::paths::PathStyle;
use codex_usage_monitor::rate_limits::{QuotaSnapshot, QuotaWindow, TokenUsageSummary};
use codex_usage_monitor::storage::{AppConfig, Storage, ThemePreference};
use codex_usage_monitor::time::Timestamp;
use codex_usage_monitor::ui::{
    address_line, apply_action, banner_colors, cache_line, credits_line, data_line,
    delete_question, duration_line, has_ordinary_auth_file, official_name_line, plan_label,
    plan_line, quota_alarms, reset_line, status_color, theme_label, usage_lines, AddressLine,
    CardActions, Command, Line, Shade, UiAction,
};
use codex_usage_monitor::worker::{DesktopOperation, OperationKind, WorkerEvent};

const STYLE: PathStyle = PathStyle::Unix;
const NOW: Timestamp = Timestamp {
    seconds: 100_000,
    nanos: 0,
};

fn identity(email: Option<&str>, masked: Option<&str>, plan: Option<&str>) -> AccountIdentity {
    AccountIdentity {
        account_id: None,
        email: email.map(str::to_owned),
        masked_email: masked.map(str::to_owned),
        plan_type: plan.map(str::to_owned),
    }
}

fn quota() -> QuotaSnapshot {
    QuotaSnapshot {
        queried_at: NOW,
        windows: vec![],
        rate_limit_reached_type: None,
        spend_control_reached: None,
        reset_credits_available: None,
        token_usage: None,
    }
}

fn app() -> MonitorApp {
    let storage = Storage::at("/data".to_owned(), STYLE);
    let mut config = AppConfig::default();
    for (id, name) in [(1, "A"), (2, "B")] {
        config
            .accounts
            .push(storage.account_with_id(id, name.to_owned(), 0));
    }
    let mut app = MonitorApp::new(Some(storage), config, None);
    app.codex_state = CodexState::Available(CodexInstallation {
        path: "/bin/codex".to_owned(),
        version: "1.0".to_owned(),
        supports_app_server: true,
    });
    app
}

fn line(working: bool, words: &str) -> Line {
    Line {
        working,
        words: words.to_owned(),
    }
}

#[test]
fn plan_names_are_human_readable_and_unknown_safe() {
    assert_eq!(plan_label(Some("plus")), "ChatGPT Plus");
    assert_eq!(plan_label(Some("future_plan")), "未知套餐");
    assert_eq!(plan_label(None), "未提供");
}

#[test]
fn every_plan_has_its_name() {
    for (plan, name) in [
        ("pro", "ChatGPT Pro"),
        ("team", "ChatGPT Team"),
        ("business", "ChatGPT Business"),
        ("self_serve_business_usage_based", "ChatGPT Business"),
        ("enterprise", "ChatGPT Enterprise"),
        ("enterprise_cbp_usage_based", "ChatGPT Enterprise"),
        ("edu", "ChatGPT Edu"),
        ("free", "Free"),
        ("go", "Go"),
        ("prolite", "Pro Lite"),
        ("self_serve_business_prolite", "Pro Lite"),
    ] {
        assert_eq!(plan_label(Some(plan)), name);
    }
    assert_eq!(
        plan_line(&identity(None, None, Some("edu"))),
        "套餐：ChatGPT Edu"
    );
    assert_eq!(plan_line(&identity(None, None, None)), "套餐：未提供");
}

#[test]
fn colours_follow_the_state() {
    assert_eq!(
        status_color(&AccountStatus::Success),
        Shade::Rgb(65, 175, 115)
    );
    assert_eq!(status_color(&AccountStatus::Idle), Shade::Weak);
    assert_eq!(
        status_color(&AccountStatus::Querying("x")),
        Shade::Rgb(95, 150, 225)
    );
    assert_eq!(
        status_color(&AccountStatus::NotLoggedIn),
        Shade::Rgb(220, 155, 65)
    );
    for status in [
        AccountStatus::CodexUnavailable,
        AccountStatus::TimedOut,
        AccountStatus::ProtocolIncompatible,
        AccountStatus::Failed,
    ] {
        assert_eq!(status_color(&status), Shade::Rgb(220, 105, 85));
    }
    assert_eq!(
        banner_colors(&CodexState::Detecting),
        (Shade::Rgb(70, 80, 105), Shade::Rgb(120, 135, 175))
    );
    assert_eq!(
        banner_colors(&app().codex_state),
        (Shade::Rgb(35, 105, 75), Shade::Rgb(70, 170, 115))
    );
    assert_eq!(theme_label(ThemePreference::System), "跟随系统");
    assert_eq!(theme_label(ThemePreference::Light), "浅色");
    assert_eq!(theme_label(ThemePreference::Dark), "深色");
}

#[test]
fn the_top_of_the_window_follows_the_work() {
    let mut app = app();
    let header = app.header();
    assert!(header.can_add && header.can_open_settings && header.can_refresh);
    assert!(!header.can_cancel);
    assert_eq!(app.progress_line(&None), line(false, "尚未刷新"));
    assert_eq!(
        app.progress_line(&Some("T".to_owned())),
        line(false, "最后刷新：T")
    );
    app.refresh_all().unwrap();
    let header = app.header();
    assert!(!header.can_add && !header.can_refresh && header.can_cancel);
    assert_eq!(
        app.progress_line(&None),
        line(true, "正在处理 2 个账号（刷新全部时依次查询）")
    );
    app.worker.shutdown();
    assert!(app
        .worker
        .reserve_desktop_operation(DesktopOperation::Switch(1)));
    assert!(!app.header().can_cancel);
    assert_eq!(
        app.progress_line(&None),
        line(true, "正在安全切换桌面应用账号（凭据替换阶段不可取消）")
    );
}

#[test]
fn the_banner_tells_whose_the_desktop_is() {
    let mut app = app();
    assert_eq!(app.desktop_line(), None);
    app.config.settings.desktop_switch_enabled = true;
    for (state, expected) in [
        (
            DesktopAccountState::Managed(2),
            Some(line(false, "桌面账号：B")),
        ),
        (
            DesktopAccountState::Managed(9),
            Some(line(false, "桌面账号：已管理账号")),
        ),
        (
            DesktopAccountState::Checking,
            Some(line(true, "正在验证桌面账号")),
        ),
        (
            DesktopAccountState::Unmanaged,
            Some(line(false, "⚠ 桌面账号未受本应用管理")),
        ),
        (
            DesktopAccountState::Missing,
            Some(line(false, "桌面应用尚未登录")),
        ),
        (
            DesktopAccountState::Error("x".to_owned()),
            Some(line(false, "⚠ 桌面账号验证失败：x")),
        ),
        (DesktopAccountState::Disabled, None),
    ] {
        app.desktop_account_state = state;
        assert_eq!(app.desktop_line(), expected);
    }
}

#[test]
fn messages_are_shown_until_they_are_closed() {
    let mut app = app();
    assert_eq!(app.message_line(), None);
    app.show_detection_diagnostic();
    assert_eq!(app.message_line(), None);
    app.codex_state = CodexState::Unavailable {
        summary: "s".to_owned(),
        diagnostic: "d".to_owned(),
    };
    app.show_detection_diagnostic();
    assert_eq!(app.global_diagnostic.as_deref(), Some("d"));
    assert_eq!(app.message_line().as_deref(), Some("诊断信息"));
    app.note_browser_failure("x@y.z");
    assert_eq!(
        app.message_line().as_deref(),
        Some("无法自动打开浏览器，请复制链接手动打开")
    );
    assert_eq!(app.global_diagnostic.as_deref(), Some("x***@y.z"));
    app.dismiss_message();
    assert_eq!(app.message_line(), None);
}

#[test]
fn cards_offer_what_can_be_done() {
    let mut app = app();
    let open = |app: &MonitorApp, has_credentials: bool| match app.card_actions(0, has_credentials)
    {
        CardActions::Open {
            can_refresh,
            login,
            can_switch,
            switch,
            hint,
        } => (can_refresh, login, can_switch, switch, hint),
        other => panic!("unexpected {other:?}"),
    };
    assert_eq!(
        open(&app, true),
        (
            true,
            "浏览器登录",
            false,
            "切换到桌面应用",
            "请先在设置中启用桌面账号切换"
        )
    );
    app.config.settings.desktop_switch_enabled = true;
    app.config.accounts[0].last_success = Some(CachedAccountData {
        identity: identity(None, None, None),
        quota: quota(),
    });
    assert_eq!(
        open(&app, true),
        (
            true,
            "浏览器重新登录",
            true,
            "切换到桌面应用",
            "将安全关闭 Codex 桌面宿主、切换本机凭据并验证账号"
        )
    );
    assert!(!open(&app, false).2);
    app.desktop_account_state = DesktopAccountState::Managed(1);
    assert!(app.is_current_desktop(1) && !app.is_current_desktop(2));
    assert_eq!(open(&app, true).3, "当前已是该账号");
    assert!(!open(&app, true).2);
    app.config.accounts[0].enabled = false;
    assert!(!open(&app, true).0);
    assert!(app.worker.reserve(2));
    assert_eq!(app.card_actions(0, true), CardActions::Locked);
    assert_eq!(app.card_actions(1, true), CardActions::Cancel);
    assert!(has_ordinary_auth_file(&PathKind::File));
    assert!(!has_ordinary_auth_file(&PathKind::Other));
}

#[test]
fn logins_have_a_window_with_a_code() {
    let mut app = app();
    assert_eq!(app.login_window(1), None);
    let challenge = |user_code: Option<&str>, device_code: bool| LoginChallenge {
        login_id: "l".to_owned(),
        url: "https://chatgpt.com/d".to_owned(),
        user_code: user_code.map(str::to_owned),
        device_code,
    };
    let mut code = |id: u128, challenge: LoginChallenge| {
        app.process_event(
            WorkerEvent::LoginChallenge {
                account_id: id,
                challenge,
            },
            NOW,
        );
        let window = app.login_window(id).unwrap();
        (window.title, window.code)
    };
    assert_eq!(
        code(1, challenge(Some("AB"), true)),
        ("OpenAI 官方登录 · A".to_owned(), Some("AB".to_owned()))
    );
    assert_eq!(code(1, challenge(None, true)).1.as_deref(), Some("未提供"));
    assert_eq!(code(1, challenge(Some("AB"), false)).1, None);
    assert_eq!(
        code(9, challenge(None, false)).0,
        "OpenAI 官方登录 · 账号"
    );
}

#[test]
fn deleting_is_asked_with_its_consequence() {
    let app = app();
    let ask = |account_id: u128, delete_credentials: bool| {
        delete_question(
            &app,
            &DeleteDialog {
                account_id,
                delete_credentials,
            },
        )
    };
    let kept = ask(1, false).unwrap();
    assert_eq!(kept.question, "要删除“A”的本地配置吗？");
    assert_eq!(kept.consequence, "账号目录会保留，可由你稍后手动删除。");
    assert_eq!(
        ask(1, true).unwrap().consequence,
        "将永久删除：/data/accounts/00000000-0000-0000-0000-000000000001"
    );
    assert_eq!(ask(9, true), None);
}

#[test]
fn cards_tell_address_plan_and_age() {
    assert_eq!(
        address_line(&identity(Some("a@b"), Some("m"), None)),
        AddressLine::Full("a@b".to_owned())
    );
    assert_eq!(
        address_line(&identity(None, Some("m***@b"), None)),
        AddressLine::Words("邮箱账号：m***@b（旧缓存，刷新后显示完整邮箱）".to_owned())
    );
    assert_eq!(
        address_line(&identity(None, None, None)),
        AddressLine::Words("邮箱账号：官方未提供".to_owned())
    );
    let later = Timestamp {
        seconds: NOW.seconds + 900,
        nanos: 0,
    };
    let fresh = cache_line(NOW, NOW, 15, "T");
    assert!(!fresh.stale);
    assert_eq!(fresh.words, "缓存数据 · T");
    let stale = cache_line(NOW, later, 15, "T");
    assert!(stale.stale);
    assert_eq!(stale.words, "⚠ 缓存数据 · 已过期 · T");
}

#[test]
fn quotas_are_told() {
    let mut snapshot = quota();
    assert!(quota_alarms(&snapshot).is_empty());
    assert_eq!(credits_line(&snapshot), None);
    snapshot.rate_limit_reached_type = Some("weekly".to_owned());
    snapshot.spend_control_reached = Some(true);
    snapshot.reset_credits_available = Some(-2);
    assert_eq!(
        quota_alarms(&snapshot),
        vec![
            "⚠ 官方服务标记该账号已达到额度限制",
            "⚠ 已达到工作区用量控制上限"
        ]
    );
    snapshot.spend_control_reached = Some(false);
    assert_eq!(quota_alarms(&snapshot).len(), 1);
    assert_eq!(
        credits_line(&snapshot).as_deref(),
        Some("官方可用额度重置次数：-2")
    );
    let usage = |lifetime_tokens: Option<i64>, current_streak_days: Option<i64>| {
        usage_lines(&TokenUsageSummary {
            lifetime_tokens,
            current_streak_days,
            longest_streak_days: None,
            peak_daily_tokens: None,
            longest_running_turn_seconds: None,
        })
    };
    assert_eq!(
        usage(Some(12), Some(3)),
        vec!["累计 Token 活动：12", "当前连续使用：3 天"]
    );
    assert_eq!(usage(None, None), vec!["官方未返回可展示的摘要字段。"]);
    assert_eq!(usage(None, Some(1)), vec!["当前连续使用：1 天"]);
}

#[test]
fn windows_are_told() {
    let mut window = QuotaWindow {
        limit_id: None,
        official_name: None,
        local_name: "x".to_owned(),
        kind: "primary".to_owned(),
        used_percent_bits: 0,
        window_duration_minutes: None,
        resets_at: None,
        exhausted: false,
    };
    assert_eq!(official_name_line(&window), None);
    assert_eq!(duration_line(&window), None);
    assert_eq!(reset_line(&window, NOW, "T"), None);
    window.official_name = Some("Codex".to_owned());
    window.window_duration_minutes = Some(300);
    window.resets_at = Some(Timestamp {
        seconds: NOW.seconds + 7_200,
        nanos: 0,
    });
    assert_eq!(
        official_name_line(&window).as_deref(),
        Some("官方名称：Codex")
    );
    assert_eq!(duration_line(&window).as_deref(), Some("窗口 300 分钟"));
    assert_eq!(
        reset_line(&window, NOW, "T").as_deref(),
        Some("重置：T（还有 2 小时 0 分钟）")
    );
    assert_eq!(
        data_line(&Storage::at("/data".to_owned(), STYLE)),
        "数据：/data"
    );
}

#[test]
fn actions_lead_to_work_or_dialogs() {
    let mut app = app();
    let home = Some("/home/me".to_owned());
    let mut act = |app: &mut MonitorApp, action: UiAction| apply_action(app, action, STYLE, &home);
    assert_eq!(
        act(&mut app, UiAction::Rename(1, "A".to_owned())),
        Ok(Command::Nothing)
    );
    assert_eq!(
        app.edit_dialog,
        Some(EditDialog {
            account_id: 1,
            name: "A".to_owned()
        })
    );
    assert_eq!(act(&mut app, UiAction::Delete(2)), Ok(Command::Nothing));
    assert_eq!(
        app.delete_dialog,
        Some(DeleteDialog {
            account_id: 2,
            delete_credentials: false
        })
    );
    assert_eq!(
        act(&mut app, UiAction::SetEnabled(2, false)),
        Ok(Command::Save)
    );
    assert!(!app.config.accounts[1].enabled);
    assert_eq!(
        act(&mut app, UiAction::SetEnabled(9, false)),
        Ok(Command::Nothing)
    );
    assert_eq!(act(&mut app, UiAction::Cancel(1)), Ok(Command::Cancel(1)));
    assert!(matches!(
        act(&mut app, UiAction::Login(1, true)),
        Ok(Command::Login(_, true))
    ));
    assert_eq!(
        act(&mut app, UiAction::SwitchDesktop(1)),
        Ok(Command::Nothing)
    );
    app.config.settings.desktop_switch_enabled = true;
    assert!(matches!(
        act(&mut app, UiAction::SwitchDesktop(1)),
        Ok(Command::Switch(_))
    ));
    assert!(matches!(
        act(&mut app, UiAction::Refresh(1)),
        Ok(Command::Refresh(_))
    ));
    assert_eq!(act(&mut app, UiAction::Logout(1)), Ok(Command::Nothing));
    app.worker.settle(&codex_usage_monitor::worker::failed(
        1,
        OperationKind::Query,
        &AppError::Cancelled,
    ));
    assert!(matches!(
        act(&mut app, UiAction::Logout(2)),
        Ok(Command::Logout(_))
    ));
    app.config.accounts[0].state_dir = "/x".to_owned();
    assert!(matches!(
        act(&mut app, UiAction::Login(1, false)),
        Err(AppError::Storage(_))
    ));
}
