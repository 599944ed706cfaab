use codex_usage_monitor::account::{AccountRuntime, AccountStatus};
use codex_usage_monitor::error::AppError;
use codex_usage_monitor::logging::{info, mask_address, needs_rotation, redact, warn};

#[test]
fn redacts_tokens_and_email() {
    let text = redact("user@example.com access_token=secret sk-secret");
    assert!(text.contains("u***@example.com"));
    assert!(!text.contains("secret"));
}

#[test]
fn every_kind_of_credential_is_hidden() {
    for word in [
        "ACCESS_TOKEN:x",
        "my-refresh_token",
        "Authorization:x",
        "Bearer",
        "bearer-x",
        "SK-abc",
        "aaaaaaaaaaaaaaaaaaaa.bbbbbbbbbbbbbbbbbbbb.c",
        "sk-user@example.com",
    ] {
        assert_eq!(redact(word), "[REDACTED]", "{word}");
    }
    for word in ["task-1", "a.b.c", "authorization", "aaaaaaaaaaaaaaaaaaaaaaaaaaaaaaaaaaaaaaaaaaaaa.b"] {
        assert_eq!(redact(word), word);
    }
    assert_eq!(
        redact("aaaaaaaaaaaaaaaaaaa.bbbbbbbbbbbbbbbbbbb.c"),
        "[REDACTED]"
    );
    assert_eq!(
        redact("aaaaaaaaaaaaaaaaaaa.bbbbbbbbbbbbbbbbbb.c"),
        "aaaaaaaaaaaaaaaaaaa.bbbbbbbbbbbbbbbbbb.c"
    );
    assert_eq!(redact("名名名名名名.名名名名名名.名名"), "[REDACTED]");
}

#[test]
fn what_belongs_to_a_header_is_hidden() {
    assert_eq!(
        redact("Authorization: Bearer abc123"),
        "[REDACTED] [REDACTED] [REDACTED]"
    );
    assert_eq!(
        redact("sent authorization:Basic abc123 next and more"),
        "sent [REDACTED] [REDACTED] [REDACTED] and more"
    );
    assert_eq!(redact("bearer abc123 more"), "[REDACTED] [REDACTED] more");
    assert_eq!(
        redact("\"access_token\": \"abc\", refresh_token= def end"),
        "[REDACTED] [REDACTED] [REDACTED] [REDACTED] end"
    );
    assert_eq!(redact("access_token=abc end"), "[REDACTED] end");
    assert!(!redact("x Authorization: Bearer abc123 y").contains("abc123"));
}

#[test]
fn words_are_one_blank_apart() {
    assert_eq!(redact("  a \t b\n"), "a b");
    assert_eq!(redact(""), "");
    let text = "\u{3000}me@example.com  asked\r\nbearer abc,\tand \u{a0} left ";
    let shown = redact(text);
    assert_eq!(
        shown,
        "m***@example.com asked [REDACTED] [REDACTED] and left"
    );
    assert_eq!(
        shown.split(' ').count(),
        text.split_whitespace().count()
    );
}

#[test]
fn texts_are_redacted_each_for_itself() {
    for (first, second) in [
        ("me@example.com wrote", "sk-abc to you@example.com"),
        ("Authorization: Bearer abc", "and more"),
        ("authorization:x y z", "w"),
        ("plain", "bearer abc"),
    ] {
        for blank in [' ', '\n', '\u{3000}'] {
            assert_eq!(
                redact(&format!("{first}{blank}{second}")),
                format!("{} {}", redact(first), redact(second))
            );
        }
    }
    assert_eq!(redact("Authorization: Bearer"), "[REDACTED] [REDACTED]");
    assert_eq!(
        redact("Authorization: Bearer abc"),
        "[REDACTED] [REDACTED] [REDACTED]"
    );
    assert_eq!(redact(&format!("  {}a b", '\n')), redact("a b"));
    assert_eq!(redact(&format!("a b{}  ", '\n')), redact("a b"));
}

#[test]
fn addresses_keep_their_domain() {
    assert_eq!(redact("@x"), "***@x");
    assert_eq!(redact("a@b@c"), "a***@b***@c");
    assert_eq!(
        redact("a@b.com,user@example.com"),
        "a***@b.com,u***@example.com"
    );
    assert_eq!(
        redact("<first@x.org>;<second@y.org>,@z.org"),
        "<***@x.org>;<s***@y.org>,***@z.org"
    );
    assert_eq!(mask_address("someone@example.com", 2), "so***@example.com");
    assert_eq!(mask_address("nobody", 2), "[REDACTED_EMAIL]");
}

#[test]
fn lines_carry_time_level_and_redacted_words() {
    assert_eq!(
        info("2025-01-01T00:00:00+00:00", "hello  a@b.c"),
        "2025-01-01T00:00:00+00:00 [INFO] hello a***@b.c"
    );
    assert_eq!(warn("t", "sk-1"), "t [WARN] [REDACTED]");
    assert!(!needs_rotation(999_999));
    assert!(needs_rotation(1_000_000));
}

#[test]
fn errors_have_a_message_a_summary_and_a_diagnosis() {
    let cases = [
        (
            AppError::CodexUnavailable("x@y.z".to_owned()),
            "Codex 可执行文件不可用：x@y.z",
            "未找到可用的 Codex CLI",
        ),
        (
            AppError::ProtocolIncompatible("d".to_owned()),
            "Codex App Server 不支持当前账户协议：d",
            "Codex 版本与应用协议不兼容",
        ),
        (
            AppError::Server("d".to_owned()),
            "Codex App Server 返回错误：d",
            "Codex 服务返回错误",
        ),
        (AppError::NotLoggedIn, "账号尚未登录", "账号尚未登录或登录已失效"),
        (
            AppError::Timeout("d".to_owned()),
            "操作超时：d",
            "请求超时，请检查网络后重试",
        ),
        (AppError::Cancelled, "操作已取消", "操作已取消"),
        (
            AppError::ProcessExited("d".to_owned()),
            "Codex App Server 提前退出：d",
            "Codex App Server 意外退出",
        ),
        (
            AppError::InvalidResponse("d".to_owned()),
            "无法解析 App Server 响应：d",
            "Codex 返回了无法识别的数据",
        ),
        (
            AppError::Storage("d".to_owned()),
            "本地数据错误：d",
            "无法读取或保存本地数据",
        ),
        (
            AppError::DesktopSwitch("d".to_owned()),
            "桌面账号切换失败：d",
            "无法安全切换桌面应用账号",
        ),
        (AppError::Io("d".to_owned()), "系统错误：d", "本地系统操作失败"),
    ];
    for (error, message, summary) in cases {
        assert_eq!(error.message(), message);
        assert_eq!(error.user_message(), summary);
        assert_eq!(error.diagnostic(), redact(message));
    }
}

#[test]
fn statuses_are_labelled() {
    assert_eq!(AccountStatus::Idle.label(), "○ 等待查询");
    assert_eq!(AccountStatus::Querying("正在查询").label(), "正在查询");
    assert_eq!(AccountStatus::Success.label(), "✓ 查询成功");
    assert_eq!(AccountStatus::NotLoggedIn.label(), "⚠ 未登录");
    assert_eq!(AccountStatus::CodexUnavailable.label(), "⚠ Codex 不可用");
    assert_eq!(AccountStatus::TimedOut.label(), "⚠ 请求超时");
    assert_eq!(AccountStatus::ProtocolIncompatible.label(), "⚠ 协议不兼容");
    assert_eq!(AccountStatus::Failed.label(), "⚠ 查询失败");
    assert_eq!(AccountRuntime::default().status, AccountStatus::Idle);
}
