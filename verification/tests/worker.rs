use codex_usage_monitor::account::{
    AccountIdentity, AccountRecord, CachedAccountData, LoginChallenge,
};
use codex_usage_monitor::account_switch::{
    CredentialIdentity, CredentialOwner, DesktopCredentialInspection, SwitchReceipt,
};
use codex_usage_monitor::desktop_host::HostShutdown;
use codex_usage_monitor::error::AppError;
use codex_usage_monitor::ids::new_id;
use codex_usage_monitor::rate_limits::QuotaSnapshot;
use codex_usage_monitor::time::Timestamp;
use codex_usage_monitor::worker::{
    advance_check, advance_commit, advance_login, begin_inspection, failed, failure_log,
    inspection_ended, logout_ended, query_ended, settle_inspection, started, switch_ended,
    CheckNext, CheckReply, CheckStage, CommitNext, CommitReply, CommitStage, DesktopOperation,
    FailureCategory, InspectNext, LoginNext, LoginReply, LoginStage, OperationKind, RefreshJob, RefreshRun, RefreshStep, SwitchSuccess, WorkerEvent, WorkerFailure,
    WorkerManager,
};

fn account(id: u128, enabled: bool) -> AccountRecord {
    AccountRecord {
        id,
        display_name: format!("账号 {id}"),
        state_dir: format!("/data/{id}"),
        enabled,
        order: 0,
        last_success: None,
        last_attempt_at: None,
    }
}

fn identity(account_id: Option<&str>, email: Option<&str>) -> AccountIdentity {
    AccountIdentity {
        account_id: account_id.map(str::to_owned),
        email: email.map(str::to_owned),
        masked_email: None,
        plan_type: None,
    }
}

fn credentials(account_id: Option<&str>, email: Option<&str>) -> CredentialIdentity {
    CredentialIdentity {
        account_id: account_id.map(str::to_owned),
        email: email.map(str::to_owned),
    }
}

fn data() -> CachedAccountData {
    CachedAccountData {
        identity: identity(None, Some("a@b")),
        quota: QuotaSnapshot {
            queried_at: Timestamp {
                seconds: 5,
                nanos: 0,
            },
            windows: vec![],
            rate_limit_reached_type: None,
            spend_control_reached: None,
            reset_credits_available: None,
            token_usage: None,
        },
    }
}

fn challenge() -> LoginChallenge {
    LoginChallenge {
        login_id: "l".to_owned(),
        url: "https://chatgpt.com/".to_owned(),
        user_code: None,
        device_code: false,
    }
}

fn host(was_running: bool) -> HostShutdown {
    HostShutdown {
        was_running,
        launch_target: None,
    }
}

fn receipt(owner: CredentialOwner) -> SwitchReceipt {
    SwitchReceipt {
        global_auth_path: "/g/auth.json".to_owned(),
        previous_global: None,
        recovery_path: None,
        previous_owner: owner,
    }
}

fn category(event: &WorkerEvent) -> FailureCategory {
    match event {
        WorkerEvent::Failed { failure, .. } => failure.category,
        other => panic!("unexpected {other:?}"),
    }
}

#[test]
fn second_desktop_switch_is_rejected_by_global_lock() {
    let mut worker = WorkerManager::new();
    assert!(worker.reserve_desktop_operation(DesktopOperation::Switch(new_id())));
    assert!(!worker.reserve_desktop_operation(DesktopOperation::Switch(new_id())));
}

#[test]
fn work_excludes_other_work() {
    let mut worker = WorkerManager::new();
    assert!(worker.reserve(1));
    assert!(!worker.reserve(2));
    assert!(!worker.reserve_desktop_operation(DesktopOperation::Inspect));
    assert!(worker.refresh_all(&vec![account(3, true)]).is_empty());
    assert!(worker.is_active(1) && !worker.is_active(2));
    worker.settle(&WorkerEvent::LogoutFinished { account_id: 2 });
    assert!(worker.any_active());
    worker.settle(&WorkerEvent::LogoutFinished { account_id: 1 });
    assert!(!worker.any_active());
    assert!(worker.reserve_desktop_operation(DesktopOperation::Switch(1)));
    assert!(worker.desktop_switch_active());
    assert!(!worker.reserve(1));
    worker.settle(&failed(
        1,
        OperationKind::SwitchDesktopAccount,
        &AppError::Cancelled,
    ));
    assert!(!worker.any_active());
    assert!(worker.reserve_desktop_operation(DesktopOperation::Inspect));
    assert!(!worker.desktop_switch_active());
    worker.shutdown();
    assert!(!worker.any_active());
}

#[test]
fn only_one_search_for_the_program_runs() {
    let mut worker = WorkerManager::new();
    assert!(worker.detect_codex());
    assert!(!worker.detect_codex());
    worker.settle(&WorkerEvent::CodexDetected(Err(WorkerFailure::from_error(
        &AppError::Cancelled,
    ))));
    assert!(worker.detect_codex());
}

#[test]
fn a_refresh_of_all_takes_the_enabled_accounts_in_order() {
    let mut worker = WorkerManager::new();
    let places = worker.refresh_all(&vec![account(1, true), account(2, false), account(3, true)]);
    assert_eq!(places, vec![0, 2]);
    assert_eq!(worker.active, vec![1, 3]);
    let mut run = RefreshRun::new(vec![
        RefreshJob {
            account_id: 1,
            state_dir: "/a".to_owned(),
        },
        RefreshJob {
            account_id: 3,
            state_dir: "/b".to_owned(),
        },
    ]);
    assert_eq!(run.upcoming(), Some(1));
    assert_eq!(run.step(true), RefreshStep::Skip(1));
    assert_eq!(run.step(false), RefreshStep::Query(3, "/b".to_owned()));
    assert_eq!(run.upcoming(), None);
    assert_eq!(run.step(false), RefreshStep::Finished);
}

#[test]
fn failures_are_sorted_by_kind() {
    for (error, expected) in [
        (AppError::Cancelled, FailureCategory::Cancelled),
        (AppError::NotLoggedIn, FailureCategory::NotLoggedIn),
        (AppError::Timeout(String::new()), FailureCategory::TimedOut),
        (
            AppError::CodexUnavailable(String::new()),
            FailureCategory::CodexUnavailable,
        ),
        (
            AppError::ProtocolIncompatible(String::new()),
            FailureCategory::ProtocolIncompatible,
        ),
        (AppError::Server(String::new()), FailureCategory::Other),
    ] {
        let failure = WorkerFailure::from_error(&error);
        assert_eq!(failure.category, expected);
        assert_eq!(failure.summary, error.user_message());
        assert_eq!(failure.diagnostic, error.diagnostic());
    }
    assert_eq!(
        failure_log(1, &WorkerFailure::from_error(&AppError::Cancelled)),
        "账号 00000000-0000-0000-0000-000000000001 操作失败：操作已取消"
    );
    assert_eq!(
        started(1, OperationKind::Query),
        WorkerEvent::Started {
            account_id: 1,
            operation: OperationKind::Query,
            step: "↻ 正在查询",
        }
    );
    assert_eq!(
        query_ended(1, Ok(data())),
        WorkerEvent::QueryFinished {
            account_id: 1,
            data: data(),
        }
    );
    assert_eq!(
        category(&query_ended(1, Err(AppError::NotLoggedIn))),
        FailureCategory::NotLoggedIn
    );
    assert_eq!(
        logout_ended(1, Ok(())),
        WorkerEvent::LogoutFinished { account_id: 1 }
    );
    assert_eq!(
        category(&logout_ended(1, Err(AppError::Cancelled))),
        FailureCategory::Cancelled
    );
}

#[test]
fn a_login_goes_from_challenge_to_data() {
    let (events, next) = advance_login(
        1,
        LoginStage::Starting,
        LoginReply::Challenge(Ok(challenge())),
    );
    assert_eq!(
        events,
        vec![WorkerEvent::LoginChallenge {
            account_id: 1,
            challenge: challenge(),
        }]
    );
    assert_eq!(next, LoginNext::Stage(LoginStage::Opening(challenge())));
    let (events, next) = advance_login(
        1,
        LoginStage::Opening(challenge()),
        LoginReply::Opened(Err("no browser".to_owned())),
    );
    assert_eq!(events.len(), 2);
    assert_eq!(next, LoginNext::Stage(LoginStage::Waiting(challenge())));
    let (events, next) = advance_login(
        1,
        LoginStage::Waiting(challenge()),
        LoginReply::Completed(Ok(())),
    );
    assert_eq!(
        events,
        vec![WorkerEvent::Step {
            account_id: 1,
            step: "↻ 正在读取额度",
        }]
    );
    assert_eq!(next, LoginNext::Stage(LoginStage::Reading));
    let (_, next) = advance_login(1, LoginStage::Reading, LoginReply::Data(Ok(data())));
    assert_eq!(
        next,
        LoginNext::Finish(WorkerEvent::LoginFinished {
            account_id: 1,
            data: data(),
        })
    );
}

#[test]
fn only_a_login_that_was_given_up_is_called_off() {
    let (_, next) = advance_login(
        1,
        LoginStage::Waiting(challenge()),
        LoginReply::Completed(Err(AppError::Cancelled)),
    );
    assert_eq!(
        next,
        LoginNext::Stage(LoginStage::CallingOff(AppError::Cancelled))
    );
    match advance_login(
        1,
        LoginStage::CallingOff(AppError::Cancelled),
        LoginReply::CalledOff,
    ) {
        (_, LoginNext::Finish(event)) => assert_eq!(category(&event), FailureCategory::Cancelled),
        other => panic!("unexpected {other:?}"),
    }
    match advance_login(
        1,
        LoginStage::Waiting(challenge()),
        LoginReply::Completed(Err(AppError::Timeout(String::new()))),
    ) {
        (_, LoginNext::Finish(event)) => assert_eq!(category(&event), FailureCategory::TimedOut),
        other => panic!("unexpected {other:?}"),
    }
}

#[test]
fn what_the_service_does_not_bear_out_is_unknown() {
    let inspection = || DesktopCredentialInspection {
        owner: CredentialOwner::Managed(7),
        identity: Some(credentials(Some("acct"), Some("a@b"))),
    };
    let (settled, verified) = settle_inspection(inspection(), identity(None, Some("A@b")));
    assert_eq!(settled.owner, CredentialOwner::Managed(7));
    assert_eq!(verified.account_id.as_deref(), Some("acct"));
    let (settled, _) = settle_inspection(inspection(), identity(None, Some("x@b")));
    assert_eq!(settled.owner, CredentialOwner::Unmanaged);
    let (settled, verified) = settle_inspection(inspection(), identity(Some("other"), None));
    assert_eq!(settled.owner, CredentialOwner::Unmanaged);
    assert_eq!(verified.account_id.as_deref(), Some("other"));
}

#[test]
fn the_service_is_asked_only_whose_named_credentials_are() {
    let named = || DesktopCredentialInspection {
        owner: CredentialOwner::Managed(7),
        identity: Some(credentials(Some("acct"), None)),
    };
    assert_eq!(begin_inspection(Ok(named())), InspectNext::Ask(named()));
    let missing = || DesktopCredentialInspection {
        owner: CredentialOwner::Missing,
        identity: None,
    };
    assert_eq!(
        begin_inspection(Ok(missing())),
        InspectNext::Finish(WorkerEvent::DesktopInspected {
            inspection: missing(),
            verified_identity: None,
        })
    );
    assert_eq!(
        begin_inspection(Err(AppError::Cancelled)),
        InspectNext::Finish(failed(
            0,
            OperationKind::InspectDesktopAccount,
            &AppError::Cancelled
        ))
    );
    assert_eq!(
        inspection_ended(named(), Ok(identity(Some("acct"), None))),
        WorkerEvent::DesktopInspected {
            inspection: named(),
            verified_identity: Some(identity(Some("acct"), None)),
        }
    );
    assert_eq!(
        inspection_ended(named(), Err(AppError::NotLoggedIn)),
        failed(
            0,
            OperationKind::InspectDesktopAccount,
            &AppError::NotLoggedIn
        )
    );
}

#[test]
fn a_switch_is_checked_before_it_begins() {
    let expected = || credentials(Some("acct"), Some("a@b"));
    assert_eq!(
        advance_check(
            7,
            CheckStage::Target,
            CheckReply::Target(Ok(expected())),
            false
        ),
        CheckNext::Stage(CheckStage::Identity {
            expected: expected()
        })
    );
    assert_eq!(
        advance_check(
            7,
            CheckStage::Identity {
                expected: expected()
            },
            CheckReply::Identity(Ok(identity(None, Some("z@z")))),
            false
        ),
        CheckNext::Finish(Err(AppError::DesktopSwitch(
            "目标 auth.json 身份与目标账号 account/read 返回不一致".to_owned()
        )))
    );
    let known = || identity(Some("acct"), Some("a@b"));
    assert_eq!(
        advance_check(
            7,
            CheckStage::Identity {
                expected: expected()
            },
            CheckReply::Identity(Ok(identity(None, Some("a@b")))),
            false
        ),
        CheckNext::Stage(CheckStage::Global {
            expected: expected(),
            identity: known()
        })
    );
    let global = |owner: CredentialOwner, cancelled: bool| {
        advance_check(
            7,
            CheckStage::Global {
                expected: expected(),
                identity: known(),
            },
            CheckReply::Global(Ok(DesktopCredentialInspection {
                owner,
                identity: None,
            })),
            cancelled,
        )
    };
    assert_eq!(
        global(CredentialOwner::Managed(8), false),
        CheckNext::Commit(expected())
    );
    assert_eq!(
        global(CredentialOwner::Missing, true),
        CheckNext::Finish(Err(AppError::Cancelled))
    );
    assert_eq!(
        global(CredentialOwner::Managed(7), true),
        CheckNext::Stage(CheckStage::Current {
            expected: expected(),
            identity: known()
        })
    );
    let current = |found: Result<AccountIdentity, AppError>| {
        advance_check(
            7,
            CheckStage::Current {
                expected: expected(),
                identity: known(),
            },
            CheckReply::Identity(found),
            false,
        )
    };
    assert_eq!(
        current(Ok(known())),
        CheckNext::Stage(CheckStage::Harden { identity: known() })
    );
    assert_eq!(
        current(Err(AppError::NotLoggedIn)),
        CheckNext::Commit(expected())
    );
    assert_eq!(
        advance_check(
            7,
            CheckStage::Harden { identity: known() },
            CheckReply::Hardened(Ok(())),
            false
        ),
        CheckNext::Finish(Ok(SwitchSuccess {
            identity: known(),
            recovery_path: None,
            already_active: true,
            warning: None,
        }))
    );
}

#[test]
fn a_switch_succeeds_only_when_the_service_bears_it_out() {
    let expected = || credentials(Some("acct"), Some("a@b"));
    let (steps, next) = advance_commit(
        CommitStage::Stop {
            expected: expected(),
        },
        CommitReply::Stopped(Ok(host(true))),
    );
    assert_eq!(steps, vec!["↻ 正在保存当前账号", "↻ 正在切换凭据"]);
    assert_eq!(
        next,
        CommitNext::Stage(CommitStage::Replace {
            expected: expected(),
            host: host(true)
        })
    );
    let (steps, next) = advance_commit(
        CommitStage::Restart {
            expected: expected(),
            host: host(true),
            receipt: receipt(CredentialOwner::Ambiguous),
        },
        CommitReply::Restarted(Err(AppError::DesktopSwitch("x".to_owned()))),
    );
    assert_eq!(steps, vec!["↻ 正在重新启动应用", "↻ 正在验证桌面账号"]);
    let warning =
        "切换前的全局凭据属于未管理或身份有歧义的账号，已保存受限恢复副本；桌面账号切换失败：x";
    assert_eq!(
        next,
        CommitNext::Stage(CommitStage::Verify {
            expected: expected(),
            receipt: receipt(CredentialOwner::Ambiguous),
            warning: Some(warning.to_owned()),
        })
    );
    let verify = |found: Result<AccountIdentity, AppError>| {
        advance_commit(
            CommitStage::Verify {
                expected: expected(),
                receipt: receipt(CredentialOwner::Missing),
                warning: None,
            },
            CommitReply::Identity(found),
        )
        .1
    };
    assert_eq!(
        verify(Ok(identity(None, Some("a@b")))),
        CommitNext::Finish(Ok(SwitchSuccess {
            identity: identity(Some("acct"), Some("a@b")),
            recovery_path: None,
            already_active: false,
            warning: None,
        }))
    );
    let again = CommitNext::Stage(CommitStage::StopAgain {
        receipt: receipt(CredentialOwner::Missing),
    });
    assert_eq!(verify(Ok(identity(Some("other"), None))), again);
    assert_eq!(verify(Err(AppError::NotLoggedIn)), again);
}

#[test]
fn a_switch_that_failed_is_undone_once_the_application_has_ended() {
    let (_, next) = advance_commit(
        CommitStage::StopAgain {
            receipt: receipt(CredentialOwner::Missing),
        },
        CommitReply::Stopped(Err(AppError::Cancelled)),
    );
    assert_eq!(
        next,
        CommitNext::Finish(Err(AppError::DesktopSwitch(
            "切换后身份校验失败，且无法安全关闭已重新启动的桌面宿主，因此未自动回滚。恢复信息：切换前不存在全局 auth.json。操作已取消".to_owned()
        )))
    );
    let rolled = |undone: Result<(), AppError>| {
        advance_commit(
            CommitStage::RollBack {
                host: host(true),
                receipt: SwitchReceipt {
                    recovery_path: Some("/r/auth.json".to_owned()),
                    ..receipt(CredentialOwner::Missing)
                },
            },
            CommitReply::RolledBack(undone),
        )
        .1
    };
    let resumed = |words: &str| {
        CommitNext::Stage(CommitStage::ResumeOld {
            host: host(true),
            error: AppError::DesktopSwitch(words.to_owned()),
        })
    };
    assert_eq!(
        rolled(Ok(())),
        resumed("切换后身份校验失败，已回滚全局凭据。恢复信息：/r/auth.json")
    );
    assert_eq!(
        rolled(Err(AppError::Io("x".to_owned()))),
        resumed("切换后身份校验失败且自动回滚失败；请从受限恢复副本手动恢复：/r/auth.json。系统错误：x")
    );
    let (_, next) = advance_commit(
        CommitStage::Replace {
            expected: credentials(Some("a"), None),
            host: host(true),
        },
        CommitReply::Replaced(Err(AppError::Io("x".to_owned()))),
    );
    assert_eq!(
        next,
        CommitNext::Stage(CommitStage::Resume {
            error: AppError::Io("x".to_owned()),
            host: host(true)
        })
    );
    let (_, next) = advance_commit(
        CommitStage::Resume {
            error: AppError::Io("x".to_owned()),
            host: host(true),
        },
        CommitReply::Restarted(Ok(true)),
    );
    assert_eq!(
        next,
        CommitNext::Finish(Err(AppError::Io("x".to_owned())))
    );
    assert_eq!(
        category(&switch_ended(7, Err(AppError::DesktopSwitch(String::new())))),
        FailureCategory::Other
    );
    assert!(matches!(
        switch_ended(
            7,
            Ok(SwitchSuccess {
                identity: identity(None, None),
                recovery_path: None,
                already_active: true,
                warning: None,
            })
        ),
        WorkerEvent::DesktopSwitchFinished {
            account_id: 7,
            already_active: true,
            ..
        }
    ));
}
