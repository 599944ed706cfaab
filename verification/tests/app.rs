use codex_usage_monitor::account::{
    AccountIdentity, AccountRecord, AccountStatus, CachedAccountData, LoginChallenge,
};
use codex_usage_monitor::account_switch::{CredentialOwner, DesktopCredentialInspection};
use codex_usage_monitor::app::{
    detection_log, storage_warning, AddDialog, CodexState, DeleteDialog, Deletion,
    DesktopAccountState, EditDialog, FollowUp, MonitorApp,
};
use codex_usage_monitor::codex_locator::CodexInstallation;
use codex_usage_monitor::error::AppError;
use codex_usage_monitor::paths::PathStyle;
use codex_usage_monitor::rate_limits::QuotaSnapshot;
use codex_usage_monitor::storage::{AppConfig, Storage, ThemePreference};
use codex_usage_monitor::time::Timestamp;
use codex_usage_monitor::worker::{
    failed, started, DesktopOperation, OperationKind, WorkerEvent, WorkerFailure,
};

const STYLE: PathStyle = PathStyle::Unix;
const NOW: Timestamp = Timestamp {
    seconds: 1_000,
    nanos: 0,
};

fn storage() -> Storage {
    Storage::at("/data".to_owned(), STYLE)
}

fn installation() -> CodexInstallation {
    CodexInstallation {
        path: "/bin/codex".to_owned(),
        version: "1.0".to_owned(),
        supports_app_server: true,
    }
}

fn identity(email: &str) -> AccountIdentity {
    AccountIdentity {
        account_id: None,
        email: Some(email.to_owned()),
        masked_email: None,
        plan_type: None,
    }
}

fn data(email: &str) -> CachedAccountData {
    CachedAccountData {
        identity: identity(email),
        quota: QuotaSnapshot {
            queried_at: NOW,
            windows: vec![],
            rate_limit_reached_type: None,
            spend_control_reached: None,
            reset_credits_available: None,
            token_usage: None,
        },
    }
}

/// Two accounts, 1 and 2, and the program of the service.
fn app() -> MonitorApp {
    let storage = storage();
    let mut config = AppConfig::default();
    config
        .accounts
        .push(storage.account_with_id(1, "A".to_owned(), 0));
    config
        .accounts
        .push(storage.account_with_id(2, "B".to_owned(), 1));
    let mut app = MonitorApp::new(Some(storage), config, None);
    app.codex_state = CodexState::Available(installation());
    app
}

fn busy() -> MonitorApp {
    let mut app = app();
    assert!(app.worker.reserve(1));
    app
}

fn fail(app: &mut MonitorApp, operation: OperationKind, error: AppError) -> bool {
    app.process_event(failed(1, operation, &error), NOW)
}

#[test]
fn a_start_shows_what_is_kept() {
    let app = app();
    assert_eq!(app.runtimes.len(), 2);
    assert_eq!(app.runtimes[&1].status, AccountStatus::Idle);
    assert!(app.auto_refresh_pending);
    assert_eq!(app.desktop_account_state, DesktopAccountState::Disabled);
    let mut config = AppConfig::default();
    config.settings.desktop_switch_enabled = true;
    config.settings.custom_codex_path = Some("/x".to_owned());
    let fresh = MonitorApp::new(None, config, Some("warned".to_owned()));
    assert!(!fresh.auto_refresh_pending);
    assert_eq!(fresh.desktop_account_state, DesktopAccountState::Checking);
    assert_eq!(fresh.settings_path_buffer, "/x");
    assert_eq!(fresh.desktop_home_buffer, "");
    assert_eq!(fresh.global_message.as_deref(), Some("warned"));
    assert_eq!(fresh.codex_state, CodexState::Detecting);
    assert_eq!(
        storage_warning(&AppError::Storage("x".to_owned())),
        "无法使用标准应用数据目录，本次不会保存配置。\n本地数据错误：x"
    );
    assert_eq!(
        detection_log(&installation()),
        "检测到 Codex 1.0 (/bin/codex)"
    );
}

#[test]
fn a_configuration_that_cannot_be_read_is_not_written_over() {
    let mut app = MonitorApp::new(
        Some(storage()),
        AppConfig::default(),
        Some("unreadable".to_owned()),
    );
    assert_eq!(app.save_config(), None);
    app.dismiss_message();
    assert!(app.process_event(WorkerEvent::LogoutFinished { account_id: 1 }, NOW));
    assert_eq!(app.save_config(), None);
    assert_eq!(MonitorApp::new(None, AppConfig::default(), None).save_config(), None);
    let readable = MonitorApp::new(Some(storage()), AppConfig::default(), None);
    assert_eq!(readable.save_config(), Some(&storage()));
}

#[test]
fn an_event_changes_no_other_account() {
    let mut app = app();
    app.process_event(WorkerEvent::LogoutFinished { account_id: 1 }, NOW);
    assert_eq!(app.config.accounts[0].last_attempt_at, Some(NOW));
    assert_eq!(app.config.accounts[1].last_attempt_at, None);
    assert_eq!(app.runtimes[&2].status, AccountStatus::Idle);
    assert!(app.keeps_config);
}

#[test]
fn a_query_that_succeeded_is_kept() {
    let mut app = app();
    app.process_event(started(1, OperationKind::Query), NOW);
    assert_eq!(
        app.runtimes[&1].status,
        AccountStatus::Querying("↻ 正在查询")
    );
    let saves = app.process_event(
        WorkerEvent::QueryFinished {
            account_id: 1,
            data: data("a@b"),
        },
        NOW,
    );
    assert!(saves);
    assert_eq!(app.config.accounts[0].last_success, Some(data("a@b")));
    assert_eq!(app.config.accounts[0].last_attempt_at, Some(NOW));
    assert_eq!(app.config.accounts[1].last_success, None);
    assert_eq!(app.runtimes[&1].status, AccountStatus::Success);
    assert_eq!(app.last_global_refresh, Some(NOW));
    assert!(!app.desktop_inspection_pending);
}

#[test]
fn a_failure_keeps_the_last_success() {
    for (error, status) in [
        (AppError::NotLoggedIn, AccountStatus::NotLoggedIn),
        (AppError::Timeout(String::new()), AccountStatus::TimedOut),
        (
            AppError::CodexUnavailable(String::new()),
            AccountStatus::CodexUnavailable,
        ),
        (
            AppError::ProtocolIncompatible(String::new()),
            AccountStatus::ProtocolIncompatible,
        ),
        (AppError::Server(String::new()), AccountStatus::Failed),
    ] {
        let mut app = app();
        app.config.accounts[0].last_success = Some(data("a@b"));
        assert!(fail(&mut app, OperationKind::Query, error));
        assert_eq!(app.config.accounts[0].last_success, Some(data("a@b")));
        assert_eq!(app.config.accounts[0].last_attempt_at, Some(NOW));
        assert_eq!(app.runtimes[&1].status, status);
        assert!(app.runtimes[&1].error_summary.is_some());
    }
    let mut app = app();
    fail(&mut app, OperationKind::Query, AppError::Cancelled);
    assert_eq!(app.runtimes[&1].status, AccountStatus::Idle);
    assert_eq!(app.runtimes[&1].error_summary, None);
}

#[test]
fn a_failed_look_at_the_desktop_touches_no_account() {
    let mut app = app();
    app.desktop_inspection_pending = true;
    let saves = fail(
        &mut app,
        OperationKind::InspectDesktopAccount,
        AppError::NotLoggedIn,
    );
    assert!(!saves);
    assert_eq!(
        app.desktop_account_state,
        DesktopAccountState::Error("账号尚未登录或登录已失效".to_owned())
    );
    assert!(!app.desktop_inspection_pending);
    assert_eq!(app.config.accounts[0].last_attempt_at, None);
    assert_eq!(app.runtimes[&1].status, AccountStatus::Idle);
}

#[test]
fn a_failed_switch_is_told() {
    let mut app = app();
    fail(
        &mut app,
        OperationKind::SwitchDesktopAccount,
        AppError::DesktopSwitch("x".to_owned()),
    );
    assert_eq!(
        app.desktop_account_state,
        DesktopAccountState::Error("切换失败，当前桌面账号需要重新验证".to_owned())
    );
    assert_eq!(
        app.global_message.as_deref(),
        Some("无法安全切换桌面应用账号")
    );
    assert_eq!(
        app.global_diagnostic.as_deref(),
        Some("桌面账号切换失败：x")
    );
}

#[test]
fn logins_and_logouts_are_shown() {
    let mut app = app();
    app.config.settings.desktop_switch_enabled = true;
    app.process_event(
        WorkerEvent::LoginChallenge {
            account_id: 1,
            challenge: LoginChallenge {
                login_id: "l".to_owned(),
                url: "u".to_owned(),
                user_code: None,
                device_code: false,
            },
        },
        NOW,
    );
    assert!(app.runtimes[&1].login_challenge.is_some());
    app.process_event(
        WorkerEvent::BrowserOpenFailed {
            account_id: 1,
            detail: "a@b.c".to_owned(),
        },
        NOW,
    );
    assert_eq!(
        app.runtimes[&1].error_summary.as_deref(),
        Some("无法自动打开浏览器，请点击登录窗口中的链接")
    );
    assert_eq!(app.runtimes[&1].diagnostic.as_deref(), Some("a***@b.c"));
    app.process_event(
        WorkerEvent::Step {
            account_id: 1,
            step: "waiting",
        },
        NOW,
    );
    assert_eq!(app.runtimes[&1].status, AccountStatus::Querying("waiting"));
    assert!(app.process_event(
        WorkerEvent::LoginFinished {
            account_id: 1,
            data: data("a@b"),
        },
        NOW
    ));
    assert_eq!(app.runtimes[&1].login_challenge, None);
    assert!(app.desktop_inspection_pending);
    assert!(app.process_event(WorkerEvent::LogoutFinished { account_id: 1 }, NOW));
    assert_eq!(app.runtimes[&1].status, AccountStatus::NotLoggedIn);
}

#[test]
fn what_was_found_of_the_desktop_is_kept() {
    let mut app = app();
    app.config.accounts[0].last_success = Some(data("old@b"));
    let inspected = |owner: CredentialOwner| WorkerEvent::DesktopInspected {
        inspection: DesktopCredentialInspection {
            owner,
            identity: None,
        },
        verified_identity: Some(identity("new@b")),
    };
    assert!(app.process_event(inspected(CredentialOwner::Managed(1)), NOW));
    assert_eq!(app.desktop_account_state, DesktopAccountState::Managed(1));
    assert_eq!(app.config.last_active_desktop_account_id, Some(1));
    assert_eq!(
        app.config.accounts[0].last_success.as_ref().unwrap().identity,
        identity("new@b")
    );
    app.process_event(inspected(CredentialOwner::Ambiguous), NOW);
    assert_eq!(app.desktop_account_state, DesktopAccountState::Unmanaged);
    assert_eq!(app.config.last_active_desktop_account_id, None);
    app.process_event(inspected(CredentialOwner::Missing), NOW);
    assert_eq!(app.desktop_account_state, DesktopAccountState::Missing);
}

#[test]
fn a_switch_that_succeeded_is_told_with_name_and_address() {
    let mut app = app();
    app.config.accounts[0].last_success = Some(data("old@b"));
    let finished = |id: u128, already_active: bool, warning: Option<&str>| {
        WorkerEvent::DesktopSwitchFinished {
            account_id: id,
            identity: identity("new@b"),
            recovery_path: Some("/r".to_owned()),
            already_active,
            warning: warning.map(str::to_owned),
        }
    };
    app.process_event(finished(1, false, None), NOW);
    assert_eq!(
        app.global_message.as_deref(),
        Some("已将桌面应用切换到：A\nnew@b")
    );
    assert_eq!(app.runtimes[&1].diagnostic.as_deref(), Some("恢复副本：/r"));
    assert_eq!(app.desktop_account_state, DesktopAccountState::Managed(1));
    app.process_event(finished(1, true, None), NOW);
    assert_eq!(
        app.global_message.as_deref(),
        Some("当前已是该账号：A\nnew@b")
    );
    app.process_event(finished(2, false, Some("careful")), NOW);
    assert_eq!(
        app.global_message.as_deref(),
        Some("已将桌面应用切换到：B\n官方未提供邮箱\n⚠ careful")
    );
    assert_eq!(app.runtimes[&2].error_summary.as_deref(), Some("careful"));
}

#[test]
fn a_search_for_the_program_is_told() {
    let mut app = app();
    assert!(app.start_codex_detection());
    assert!(!app.start_codex_detection());
    assert_eq!(app.codex_path(), None);
    app.config.settings.desktop_switch_enabled = true;
    app.global_diagnostic = Some("old".to_owned());
    app.process_event(WorkerEvent::CodexDetected(Ok(installation())), NOW);
    assert_eq!(app.codex_path().as_deref(), Some("/bin/codex"));
    assert_eq!(app.global_diagnostic, None);
    assert!(app.desktop_inspection_pending);
    app.process_event(
        WorkerEvent::CodexDetected(Err(WorkerFailure::from_error(&AppError::CodexUnavailable(
            "x".to_owned(),
        )))),
        NOW,
    );
    assert!(!app.auto_refresh_pending);
    assert!(matches!(app.codex_state, CodexState::Unavailable { .. }));
}

#[test]
fn the_desktop_is_looked_at_before_accounts_are_refreshed() {
    let mut app = app();
    app.desktop_inspection_pending = true;
    assert_eq!(app.follow_up(), FollowUp::InspectDesktop);
    assert_eq!(app.follow_up(), FollowUp::RefreshAll);
    assert_eq!(app.follow_up(), FollowUp::Nothing);
    app.auto_refresh_pending = true;
    assert!(app.worker.reserve(1));
    assert_eq!(app.follow_up(), FollowUp::Nothing);
}

#[test]
fn refreshes_are_ordered_for_the_right_accounts() {
    let mut app = app();
    app.config.accounts[0].enabled = false;
    let order = app.refresh_all().unwrap();
    assert_eq!(order.jobs.len(), 1);
    assert_eq!(order.jobs[0].account_id, 2);
    assert_eq!(order.codex_path, "/bin/codex");
    assert_eq!(order.timeout_seconds, 20);
    assert!(app.worker.is_active(2));
    assert!(app.refresh_all().is_none());
    assert!(app.refresh_one(1).is_none());
}

#[test]
fn one_account_is_worked_on_at_a_time() {
    let mut app = app();
    assert!(app.refresh_one(9).is_none());
    let order = app.refresh_one(1).unwrap();
    assert_eq!(order.account_id, 1);
    assert_eq!(order.state_dir, app.config.accounts[0].state_dir);
    assert!(app.begin_logout(2).is_none());
    app.worker.settle(&WorkerEvent::LogoutFinished { account_id: 1 });
    assert_eq!(app.begin_logout(2).unwrap().account_id, 2);
}

#[test]
fn nothing_begins_without_the_program() {
    let mut app = app();
    app.codex_state = CodexState::Detecting;
    assert!(app.refresh_all().is_none());
    assert_eq!(
        app.global_message.as_deref(),
        Some("Codex 不可用，无法刷新账号")
    );
    assert!(app.begin_logout(1).is_none());
    assert_eq!(
        app.global_message.as_deref(),
        Some("Codex 不可用，无法退出登录")
    );
    assert_eq!(app.begin_login(1), Ok(None));
    assert_eq!(
        app.global_message.as_deref(),
        Some("Codex 不可用，无法开始登录")
    );
    assert!(app.refresh_one(1).is_none());
    assert_eq!(
        app.global_message.as_deref(),
        Some("Codex 不可用，无法刷新账号")
    );
}

#[test]
fn a_login_needs_the_own_home() {
    let mut app = app();
    let order = app.begin_login(1).unwrap().unwrap();
    assert_eq!(order.home.as_deref(), Some(order.state_dir.as_str()));
    assert_eq!(app.begin_login(9), Ok(None));
    app.config.accounts[0].state_dir = "/elsewhere".to_owned();
    let fault = AppError::Storage("账号目录不在受管数据目录中：/elsewhere".to_owned());
    assert_eq!(app.begin_login(1), Err(fault));
    let fault = app.begin_login(1).unwrap_err();
    app.set_global_error(&fault);
    assert_eq!(
        app.global_message.as_deref(),
        Some("无法读取或保存本地数据")
    );
    assert_eq!(
        app.global_diagnostic.as_deref(),
        Some("本地数据错误：账号目录不在受管数据目录中：/elsewhere")
    );
}

#[test]
fn accounts_are_added_with_a_name_and_a_home() {
    let mut app = app();
    app.add_dialog = Some(AddDialog {
        name: String::new(),
    });
    let account = app.add_account("  ").unwrap().unwrap();
    assert_eq!(account.display_name, "账号 3");
    assert_eq!(account.order, 2);
    assert!(account.enabled);
    assert_eq!(
        account.state_dir,
        storage().expected_account_home(account.id)
    );
    let id = account.id;
    app.keep_account(account);
    assert_eq!(app.config.accounts.len(), 3);
    assert_eq!(app.add_dialog, None);
    assert_eq!(app.runtimes[&id].status, AccountStatus::Idle);
    assert_eq!(
        app.add_account(" C ").unwrap().unwrap().display_name,
        "C"
    );
    app.config.accounts[0].state_dir = "/x".to_owned();
    assert!(matches!(app.add_account("D"), Err(AppError::Storage(_))));
    app.storage = None;
    assert_eq!(app.add_account("D"), Ok(None));
    assert_eq!(
        app.global_message.as_deref(),
        Some("本地数据目录不可用，无法添加账号")
    );
}

#[test]
fn accounts_are_renamed_and_enabled() {
    let mut app = app();
    app.edit_dialog = Some(EditDialog {
        account_id: 1,
        name: "x".to_owned(),
    });
    assert!(app.rename_account(1, "  New "));
    assert_eq!(app.config.accounts[0].display_name, "New");
    assert_eq!(app.edit_dialog, None);
    assert!(!app.rename_account(1, " "));
    assert_eq!(app.config.accounts[0].display_name, "New");
    assert!(!app.rename_account(9, "x"));
    assert!(app.set_account_enabled(2, false));
    assert!(!app.config.accounts[1].enabled);
    assert!(!app.set_account_enabled(9, false));
}

#[test]
fn accounts_are_deleted_with_nothing_but_their_own_home() {
    let mut app = app();
    app.delete_dialog = Some(DeleteDialog {
        account_id: 1,
        delete_credentials: true,
    });
    assert_eq!(app.delete_account(1, false), Ok(Deletion::Forget));
    assert_eq!(
        app.delete_account(1, true),
        Ok(Deletion::RemoveHome(storage().expected_account_home(1)))
    );
    app.config.last_active_desktop_account_id = Some(1);
    app.forget_account(1);
    assert_eq!(app.config.accounts.len(), 1);
    assert_eq!(app.config.accounts[0].id, 2);
    assert_eq!(app.config.accounts[0].order, 0);
    assert!(!app.runtimes.contains_key(&1));
    assert_eq!(app.config.last_active_desktop_account_id, None);
    assert_eq!(app.desktop_account_state, DesktopAccountState::Unmanaged);
    assert_eq!(app.delete_dialog, None);
    assert_eq!(app.delete_account(1, true), Ok(Deletion::Nothing));
    app.config.accounts[0].state_dir = "/x".to_owned();
    assert_eq!(
        app.delete_account(2, true),
        Err(AppError::Storage("拒绝删除不属于本应用的目录".to_owned()))
    );
    assert_eq!(app.delete_account(2, false), Ok(Deletion::Forget));
}

#[test]
fn nothing_is_changed_while_work_goes_on() {
    let waiting = Some("请等待当前账号操作完成".to_owned());
    let mut app = busy();
    assert!(!app.rename_account(1, "x"));
    assert_eq!(app.global_message, waiting);
    let mut app = busy();
    assert!(!app.set_account_enabled(1, false));
    assert_eq!(app.global_message, waiting);
    let mut app = busy();
    assert_eq!(app.delete_account(1, true), Ok(Deletion::Nothing));
    assert_eq!(app.global_message, waiting);
    let mut app = busy();
    assert_eq!(app.add_account("x"), Ok(None));
    assert_eq!(app.global_message, waiting);
    let mut app = busy();
    assert!(!app.apply_settings());
    assert_eq!(
        app.global_message.as_deref(),
        Some("请等待当前账号操作完成后再保存设置")
    );
    assert_eq!(app.config.accounts[0].display_name, "A");
    assert!(app.config.accounts[0].enabled);
}

#[test]
fn settings_are_kept_within_their_limits() {
    let mut app = app();
    app.settings_path_buffer = " /my/codex ".to_owned();
    app.desktop_home_buffer = "  ".to_owned();
    app.config.settings.request_timeout_seconds = 3;
    app.config.settings.stale_after_minutes = 5_000;
    app.config.last_active_desktop_account_id = Some(1);
    assert!(app.apply_settings());
    assert_eq!(
        app.config.settings.custom_codex_path.as_deref(),
        Some("/my/codex")
    );
    assert_eq!(app.config.settings.desktop_codex_home, None);
    assert_eq!(app.config.settings.request_timeout_seconds, 5);
    assert_eq!(app.config.settings.stale_after_minutes, 1_440);
    assert_eq!(app.config.last_active_desktop_account_id, None);
    app.config.settings.request_timeout_seconds = 121;
    app.config.settings.stale_after_minutes = 0;
    app.config.settings.desktop_switch_enabled = true;
    app.config.last_active_desktop_account_id = Some(1);
    assert!(app.apply_settings());
    assert_eq!(app.config.settings.request_timeout_seconds, 120);
    assert_eq!(app.config.settings.stale_after_minutes, 1);
    assert_eq!(app.desktop_account_state, DesktopAccountState::Checking);
    assert_eq!(app.config.last_active_desktop_account_id, Some(1));
    assert!(app.set_theme_preference(ThemePreference::Dark));
    assert!(!app.set_theme_preference(ThemePreference::Dark));
    assert_eq!(app.config.settings.theme, ThemePreference::Dark);
}

#[test]
fn a_switch_is_prepared_step_by_step() {
    let home = Some("/home/me".to_owned());
    let mut app = app();
    assert_eq!(app.begin_desktop_switch(1, STYLE, &home), Ok(None));
    assert_eq!(
        app.global_message.as_deref(),
        Some("请先在设置中启用桌面账号切换")
    );
    app.config.settings.desktop_switch_enabled = true;
    let order = app.begin_desktop_switch(1, STYLE, &home).unwrap().unwrap();
    assert_eq!(order.target, Some(0));
    assert_eq!(order.global_home, "/home/me/.codex");
    assert_eq!(order.recovery_root, "/data/desktop-auth-recovery");
    assert_eq!(order.home.as_deref(), Some(app.config.accounts[0].state_dir.as_str()));
    assert_eq!(app.begin_desktop_switch(9, STYLE, &home), Ok(None));
    app.config.settings.desktop_codex_home = Some("relative".to_owned());
    assert_eq!(
        app.begin_desktop_switch(1, STYLE, &home),
        Err(AppError::DesktopSwitch(
            "自定义全局 Codex Home 必须填写绝对路径".to_owned()
        ))
    );
    app.codex_state = CodexState::Detecting;
    assert_eq!(app.begin_desktop_switch(1, STYLE, &home), Ok(None));
    assert_eq!(
        app.global_message.as_deref(),
        Some("Codex 不可用，无法切换桌面账号")
    );
    app.codex_state = CodexState::Available(installation());
    app.storage = None;
    assert_eq!(app.begin_desktop_switch(1, STYLE, &home), Ok(None));
    assert_eq!(
        app.global_message.as_deref(),
        Some("本地数据目录不可用，无法创建恢复副本")
    );
    assert!(app
        .worker
        .reserve_desktop_operation(DesktopOperation::Inspect));
    assert_eq!(app.begin_desktop_switch(1, STYLE, &home), Ok(None));
    assert_eq!(app.global_message.as_deref(), Some("请等待当前账号操作完成"));
    app.refuse_desktop_work();
    assert_eq!(app.global_message.as_deref(), Some("已有账号操作正在进行"));
}

#[test]
fn a_look_at_the_desktop_begins_where_that_is_on() {
    let home = Some("/home/me".to_owned());
    let mut app = app();
    assert_eq!(app.start_desktop_inspection(STYLE, &home), Ok(None));
    app.config.settings.desktop_switch_enabled = true;
    let order = app
        .start_desktop_inspection(STYLE, &home)
        .unwrap()
        .unwrap();
    assert_eq!(order.global_home, "/home/me/.codex");
    assert_eq!(order.recovery_root, "");
    assert_eq!(order.target, None);
    assert_eq!(app.desktop_account_state, DesktopAccountState::Checking);
    assert_eq!(
        app.worker.desktop_operation,
        Some(DesktopOperation::Inspect)
    );
    assert_eq!(app.start_desktop_inspection(STYLE, &home), Ok(None));
    assert_eq!(
        app.start_desktop_inspection(STYLE, &None),
        Err(AppError::Storage(
            "无法确定用户目录中的全局 Codex Home".to_owned()
        ))
    );
    let stray = AccountRecord {
        state_dir: "/x".to_owned(),
        ..storage().account_with_id(3, "C".to_owned(), 2)
    };
    app.config.accounts.push(stray);
    assert_eq!(
        app.start_desktop_inspection(STYLE, &home),
        Err(AppError::Storage(
            "账号目录不在受管数据目录中：/x".to_owned()
        ))
    );
}
