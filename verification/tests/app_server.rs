use codex_usage_monitor::account::{CachedAccountData, LoginChallenge};
use codex_usage_monitor::app_server::{
    append_process_diagnostic, cancel_login_params, initialize_params, initialized,
    is_official_address, login_params, map_rpc_error, parse_account_identity,
    parse_challenge_fields, parse_login_challenge, reject_server_request, server_launch,
    validate_official_login_url, LoginStep, QueryStage, QueryStep, RequestStep, ServerEvent,
    Session, StderrTail,
};
use codex_usage_monitor::error::AppError;
use codex_usage_monitor::json::{read_text, Json};
use codex_usage_monitor::protocol::RpcError;
use codex_usage_monitor::time::Timestamp;

const NOW: Timestamp = Timestamp {
    seconds: 1_785_369_600,
    nanos: 0,
};

fn json(text: &str) -> Json {
    read_text(text).unwrap()
}

fn line(text: &str) -> ServerEvent {
    ServerEvent::Line(text.to_owned())
}

#[test]
fn account_parser_accepts_unknown_fields_and_masks_email() {
    let result = parse_account_identity(&json(
        r#"{
            "account": {
                "type": "chatgpt",
                "email": "someone@example.com",
                "planType": "plus",
                "future": true
            },
            "requiresOpenaiAuth": true
        }"#,
    ))
    .unwrap();
    assert_eq!(result.masked_email.as_deref(), Some("so***@example.com"));
    assert_eq!(result.email.as_deref(), Some("someone@example.com"));
    assert_eq!(result.plan_type.as_deref(), Some("plus"));
    assert_eq!(result.account_id, None);
}

#[test]
fn account_parser_rejects_unlogged_and_api_key_accounts() {
    assert!(matches!(
        parse_account_identity(&json(r#"{"account": null, "requiresOpenaiAuth": true}"#)),
        Err(AppError::NotLoggedIn)
    ));
    assert!(parse_account_identity(&json(r#"{"account": {"type": "apiKey"}}"#)).is_err());
}

#[test]
fn only_opens_official_https_login_urls() {
    assert!(validate_official_login_url("https://chatgpt.com/auth").is_ok());
    assert!(validate_official_login_url("https://auth.openai.com/codex/device").is_ok());
    assert!(validate_official_login_url("http://chatgpt.com/auth").is_err());
    assert!(validate_official_login_url("https://evil.example/openai").is_err());
}

#[test]
fn addresses_are_judged_by_scheme_and_host() {
    let host = |name: &str| Some(name.to_owned());
    assert!(is_official_address("https", &host("openai.com")));
    assert!(is_official_address("https", &host("platform.openai.com")));
    assert!(!is_official_address("https", &host("notopenai.com")));
    assert!(!is_official_address("https", &host("www.chatgpt.com")));
    assert!(!is_official_address("http", &host("chatgpt.com")));
    assert!(!is_official_address("https", &None));
    match validate_official_login_url("no address") {
        Err(AppError::InvalidResponse(detail)) => assert!(detail.starts_with("登录地址无效：")),
        other => panic!("unexpected {other:?}"),
    }
    match validate_official_login_url("https://user@evil.example/?chatgpt.com") {
        Err(AppError::InvalidResponse(detail)) => {
            assert_eq!(detail, "Codex 返回了非 OpenAI 官方 HTTPS 登录地址");
        }
        other => panic!("unexpected {other:?}"),
    }
}

#[test]
fn the_service_is_started_in_one_home_without_foreign_credentials() {
    let launch = server_launch("/home/a");
    assert_eq!(
        launch.arguments,
        vec![
            "app-server",
            "--stdio",
            "-c",
            "cli_auth_credentials_store=\"file\"",
            "-c",
            "analytics.enabled=false"
        ]
    );
    assert_eq!(launch.variables[0].0, "CODEX_HOME");
    assert_eq!(launch.variables[0].1, "/home/a");
    assert_eq!(
        launch.removed_variables,
        vec!["OPENAI_API_KEY", "CODEX_API_KEY", "CODEX_ACCESS_TOKEN"]
    );
}

#[test]
fn the_last_diagnostic_lines_are_kept_redacted() {
    let mut tail = StderrTail::new();
    assert_eq!(tail.diagnostics(), "");
    for i in 0..30 {
        tail.push(&format!("line {i}"));
    }
    assert_eq!(tail.push("user@example.com"), "u***@example.com");
    assert_eq!(tail.lines.len(), 24);
    assert_eq!(tail.lines[0], "line 7");
    assert!(tail.diagnostics().ends_with("line 29\nu***@example.com"));
}

#[test]
fn refusals_are_told_apart() {
    let refusal = |code: Option<i64>, message: &str| {
        map_rpc_error(
            "account/read",
            &RpcError {
                code,
                message: message.to_owned(),
            },
        )
    };
    assert_eq!(refusal(None, "Authentication required"), AppError::NotLoggedIn);
    assert_eq!(refusal(None, "user is NOT LOGGED in"), AppError::NotLoggedIn);
    assert_eq!(refusal(Some(-32601), "Unauthorized"), AppError::NotLoggedIn);
    assert_eq!(
        refusal(Some(-32601), "no such thing"),
        AppError::ProtocolIncompatible("account/read：no such thing".to_owned())
    );
    assert_eq!(
        refusal(None, "Method not found"),
        AppError::ProtocolIncompatible("account/read：Method not found".to_owned())
    );
    assert_eq!(
        refusal(Some(1), "person@example.com failed"),
        AppError::Server("account/read：p***@example.com failed".to_owned())
    );
}

#[test]
fn requests_of_the_service_are_refused() {
    assert_eq!(
        reject_server_request(Json::unsigned(4), "exec"),
        json(
            r#"{"id": 4, "error": {"code": -32601,
                "message": "Codex Usage Monitor does not handle server request exec"}}"#
        )
    );
}

#[test]
fn parameters_are_those_of_the_service() {
    assert_eq!(login_params(true), json(r#"{"type": "chatgptDeviceCode"}"#));
    assert_eq!(
        login_params(false),
        json(r#"{"type": "chatgpt", "useHostedLoginSuccessPage": true, "appBrand": "codex"}"#)
    );
    assert_eq!(cancel_login_params("l1"), json(r#"{"loginId": "l1"}"#));
    assert_eq!(initialized(), json(r#"{"method": "initialized"}"#));
    assert_eq!(
        initialize_params("0.1.0"),
        json(
            r#"{"clientInfo": {"name": "codex_usage_monitor", "title": "Codex Usage Monitor",
                "version": "0.1.0"},
                "capabilities": {"optOutNotificationMethods":
                ["thread/started", "turn/started", "item/started", "item/completed"]}}"#
        )
    );
}

#[test]
fn only_the_own_response_ends_a_request() {
    let mut session = Session::new();
    let (id, message) = session.begin("account/read", None);
    assert_eq!(id, 1);
    assert_eq!(message, json(r#"{"id": 1, "method": "account/read"}"#));
    assert_eq!(session.begin("b", None).0, 2);
    session.next_id = u64::MAX;
    assert_eq!(session.begin("c", None).0, u64::MAX);
    assert_eq!(session.begin("d", None).0, 0);
    let mut step = |text: &str| session.advance_request(id, "account/read", line(text));
    assert_eq!(step(r#"{"id": 2, "result": 5}"#), RequestStep::Wait);
    assert_eq!(step(r#"{"id": "1", "result": 5}"#), RequestStep::Wait);
    assert_eq!(step(r#"{"id": 1.0, "result": 5}"#), RequestStep::Wait);
    assert_eq!(step(r#"{"method": "x", "params": 1}"#), RequestStep::Wait);
    assert!(matches!(
        step(r#"{"id": 8, "method": "exec"}"#),
        RequestStep::Send(_)
    ));
    assert_eq!(
        step(r#"{"id": 1, "result": 5}"#),
        RequestStep::Finish(Ok(Json::signed(5)))
    );
    assert_eq!(session.pending.len(), 1);
}

#[test]
fn whatever_ends_a_request_early_is_told() {
    let mut session = Session::new();
    let mut ends = |event: ServerEvent| match session.advance_request(1, "m", event) {
        RequestStep::Finish(Err(error)) => error,
        other => panic!("unexpected {other:?}"),
    };
    assert_eq!(
        ends(ServerEvent::Expired),
        AppError::Timeout("m".to_owned())
    );
    assert_eq!(ends(ServerEvent::Cancelled), AppError::Cancelled);
    assert_eq!(
        ends(ServerEvent::Silent),
        AppError::Timeout("等待 App Server 响应".to_owned())
    );
    assert_eq!(
        ends(ServerEvent::Failed("pipe".to_owned())),
        AppError::Io("pipe".to_owned())
    );
    assert_eq!(
        ends(ServerEvent::Closed("last words".to_owned())),
        AppError::ProcessExited("last words".to_owned())
    );
    assert!(matches!(
        ends(line("{not json")),
        AppError::InvalidResponse(_)
    ));
    assert_eq!(
        ends(line(r#"{"id": 1, "error": {"message": "unauthorized"}}"#)),
        AppError::NotLoggedIn
    );
}

#[test]
fn no_more_than_a_hundred_notifications_are_kept() {
    let mut session = Session::new();
    for i in 0..150 {
        let text = format!("{{\"method\": \"n{i}\"}}");
        assert_eq!(
            session.advance_request(1, "m", line(&text)),
            RequestStep::Wait
        );
    }
    assert_eq!(session.pending.len(), 100);
    assert_eq!(session.pending[0].0, "n50");
    assert_eq!(session.pending[99].0, "n149");
}

#[test]
fn a_login_ends_with_its_own_notification() {
    let mut session = Session::new();
    let mut step = |text: &str| session.advance_login("l1", line(text));
    assert_eq!(
        step(r#"{"method": "account/login/completed", "params": {"loginId": "l2", "success": true}}"#),
        LoginStep::Wait
    );
    assert_eq!(step(r#"{"id": 1, "result": 1}"#), LoginStep::Wait);
    assert_eq!(step(r#"{"method": "other"}"#), LoginStep::Wait);
    assert_eq!(
        step(r#"{"method": "account/login/completed", "params": {"loginId": "l1", "success": true}}"#),
        LoginStep::Finish(Ok(()))
    );
    assert_eq!(
        step(r#"{"method": "account/login/completed", "params": {"loginId": "l1"}}"#),
        LoginStep::Finish(Err(AppError::Server("OpenAI 登录未完成".to_owned())))
    );
    assert_eq!(
        step(
            r#"{"method": "account/login/completed",
                "params": {"loginId": "l1", "success": false, "error": "x@y.com said no"}}"#
        ),
        LoginStep::Finish(Err(AppError::Server("x***@y.com said no".to_owned())))
    );
    assert_eq!(session.pending.len(), 1);
    assert_eq!(
        session.advance_login("l1", ServerEvent::Expired),
        LoginStep::Finish(Err(AppError::Timeout("等待浏览器登录完成".to_owned())))
    );
}

#[test]
fn a_login_that_ended_early_is_found_among_what_was_kept() {
    let mut session = Session::new();
    for text in [
        r#"{"method": "a"}"#,
        r#"{"method": "account/login/completed", "params": {"loginId": "l1", "success": true}}"#,
        r#"{"method": "b"}"#,
    ] {
        session.advance_request(1, "m", line(text));
    }
    assert_eq!(session.take_login_completion("l2"), None);
    assert_eq!(session.take_login_completion("l1"), Some(Ok(())));
    assert_eq!(session.take_login_completion("l1"), None);
    assert_eq!(session.pending.len(), 2);
    assert_eq!(session.pending[1].0, "b");
}

#[test]
fn challenges_need_their_fields_and_an_official_address() {
    let browser = parse_login_challenge(
        &json(r#"{"loginId": "l", "authUrl": "https://auth.openai.com/x"}"#),
        false,
    )
    .unwrap();
    assert_eq!(
        browser,
        LoginChallenge {
            login_id: "l".to_owned(),
            url: "https://auth.openai.com/x".to_owned(),
            user_code: None,
            device_code: false,
        }
    );
    let device = parse_login_challenge(
        &json(
            r#"{"loginId": "l", "verificationUrl": "https://chatgpt.com/d", "userCode": "AB-CD"}"#,
        ),
        true,
    )
    .unwrap();
    assert_eq!(device.user_code.as_deref(), Some("AB-CD"));
    assert_eq!(
        parse_challenge_fields(&json(r#"{"loginId": "l", "authUrl": ""}"#), false),
        Err(AppError::ProtocolIncompatible(
            "登录响应缺少字段 authUrl".to_owned()
        ))
    );
    assert_eq!(
        parse_challenge_fields(&json(r#"{"authUrl": "x"}"#), false),
        Err(AppError::ProtocolIncompatible(
            "登录响应缺少字段 loginId".to_owned()
        ))
    );
    assert_eq!(
        parse_challenge_fields(&json(r#"{"loginId": "l", "verificationUrl": "x"}"#), true),
        Err(AppError::ProtocolIncompatible(
            "登录响应缺少字段 userCode".to_owned()
        ))
    );
    assert!(matches!(
        parse_login_challenge(
            &json(r#"{"loginId": "l", "authUrl": "https://evil.example/"}"#),
            false
        ),
        Err(AppError::InvalidResponse(_))
    ));
}

fn run(replies: Vec<Result<Json, AppError>>) -> Result<CachedAccountData, AppError> {
    let mut stage = QueryStage::Account;
    for reply in replies {
        match stage.advance(reply, NOW) {
            QueryStep::Ask(next) => stage = next,
            QueryStep::Finish(result) => return result,
        }
    }
    panic!("no end");
}

fn account_reply() -> Json {
    json(r#"{"account": {"type": "chatgpt", "email": "fixture@example.com", "planType": "plus"}}"#)
}

fn limits_reply() -> Json {
    json(
        r#"{"rateLimits": {"primary": {"usedPercent": 25, "windowDurationMins": 300},
            "secondary": {"usedPercent": 10, "windowDurationMins": 10080}}}"#,
    )
}

#[test]
fn a_query_asks_for_account_limits_and_usage() {
    let ask = QueryStage::Account.ask();
    assert_eq!(ask.method, "account/read");
    assert_eq!(ask.params, Some(json(r#"{"refreshToken": false}"#)));
    let result = run(vec![
        Ok(account_reply()),
        Ok(limits_reply()),
        Ok(json(r#"{"summary": {"lifetimeTokens": 1234}}"#)),
    ])
    .unwrap();
    assert_eq!(
        result.identity.email.as_deref(),
        Some("fixture@example.com")
    );
    assert_eq!(result.quota.windows.len(), 2);
    assert_eq!(result.quota.queried_at, NOW);
    assert_eq!(
        result.quota.token_usage.and_then(|u| u.lifetime_tokens),
        Some(1234)
    );
}

#[test]
fn a_missing_usage_report_never_hides_the_limits() {
    let result = run(vec![
        Ok(account_reply()),
        Ok(limits_reply()),
        Err(AppError::ProtocolIncompatible("x".to_owned())),
    ])
    .unwrap();
    assert_eq!(result.quota.windows.len(), 2);
    assert_eq!(result.quota.token_usage, None);
    match QueryStage::Account.advance(Ok(account_reply()), NOW) {
        QueryStep::Ask(stage) => {
            assert_eq!(stage.ask().method, "account/rateLimits/read");
            match stage.advance(Ok(limits_reply()), NOW) {
                QueryStep::Ask(stage) => {
                    let ask = stage.ask();
                    assert_eq!(ask.method, "account/usage/read");
                    assert_eq!(ask.timeout_millis, Some(5_000));
                }
                other => panic!("unexpected {other:?}"),
            }
        }
        other => panic!("unexpected {other:?}"),
    }
}

#[test]
fn a_query_fails_without_account_or_limits() {
    assert_eq!(
        run(vec![Ok(json(r#"{"account": null}"#))]),
        Err(AppError::NotLoggedIn)
    );
    assert_eq!(
        run(vec![Err(AppError::Timeout("account/read".to_owned()))]),
        Err(AppError::Timeout("account/read".to_owned()))
    );
    assert!(matches!(
        run(vec![Ok(account_reply()), Ok(json("{}"))]),
        Err(AppError::ProtocolIncompatible(_))
    ));
    assert_eq!(
        run(vec![Ok(account_reply()), Err(AppError::Cancelled)]),
        Err(AppError::Cancelled)
    );
}

#[test]
fn a_silent_end_is_explained_by_the_last_lines() {
    assert_eq!(
        append_process_diagnostic(AppError::ProcessExited(String::new()), "boom".to_owned()),
        AppError::ProcessExited("boom".to_owned())
    );
    assert_eq!(
        append_process_diagnostic(AppError::ProcessExited("known".to_owned()), "boom".to_owned()),
        AppError::ProcessExited("known".to_owned())
    );
    assert_eq!(
        append_process_diagnostic(AppError::NotLoggedIn, "boom".to_owned()),
        AppError::NotLoggedIn
    );
}
