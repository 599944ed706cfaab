use codex_usage_monitor::error::AppError;
use codex_usage_monitor::json::{read_bytes, read_text, write_bytes, Json};
use codex_usage_monitor::protocol::{
    classify, frame, notification, parse_line, request, IncomingMessage,
};

fn json(text: &str) -> Json {
    read_text(text).unwrap()
}

#[test]
fn builds_wire_messages_without_jsonrpc_header() {
    assert_eq!(
        request(7, "account/rateLimits/read", None),
        json(r#"{"id": 7, "method": "account/rateLimits/read"}"#)
    );
    assert_eq!(
        notification("initialized", None),
        json(r#"{"method": "initialized"}"#)
    );
}

#[test]
fn parses_response_notification_and_unknown_fields() {
    let response = parse_line(r#"{"id":1,"result":{"ok":true},"future":"ignored"}"#).unwrap();
    assert!(matches!(
        response,
        IncomingMessage::Response { result: Ok(_), .. }
    ));
    let notification =
        parse_line(r#"{"method":"account/updated","params":{"planType":"plus"}}"#).unwrap();
    assert!(matches!(notification, IncomingMessage::Notification { .. }));
}

#[test]
fn rejects_partial_or_invalid_json() {
    assert!(parse_line(r#"{"id":1,"result":"#).is_err());
}

#[test]
fn parses_server_errors_without_raw_payload_dependency() {
    let response =
        parse_line(r#"{"id":3,"error":{"code":-32600,"message":"not logged in"}}"#).unwrap();
    match response {
        IncomingMessage::Response {
            result: Err(error), ..
        } => {
            assert_eq!(error.code, Some(-32600));
            assert_eq!(error.message, "not logged in");
        }
        _ => panic!("expected error response"),
    }
}

#[test]
fn requests_carry_their_parameters() {
    assert_eq!(
        request(1, "account/read", Some(json(r#"{"refreshToken": false}"#))),
        json(r#"{"id": 1, "method": "account/read", "params": {"refreshToken": false}}"#)
    );
    assert_eq!(
        notification("a", Some(Json::Null)),
        json(r#"{"method": "a", "params": null}"#)
    );
}

#[test]
fn a_request_reads_back_as_one() {
    let made = request(9, "some/method", Some(json(r#"[1, 2]"#)));
    match classify(&made).unwrap() {
        IncomingMessage::ServerRequest { id, method, params } => {
            assert_eq!(id, Json::unsigned(9));
            assert_eq!(method, "some/method");
            assert_eq!(params, json("[1,2]"));
        }
        other => panic!("unexpected {other:?}"),
    }
}

#[test]
fn a_notification_reads_back_as_one() {
    match classify(&notification("some/method", Some(json("{\"a\": 1}")))).unwrap() {
        IncomingMessage::Notification { method, params } => {
            assert_eq!(method, "some/method");
            assert_eq!(params, json("{\"a\": 1}"));
        }
        other => panic!("unexpected {other:?}"),
    }
    match classify(&notification("other", None)).unwrap() {
        IncomingMessage::Notification { method, params } => {
            assert_eq!(method, "other");
            assert_eq!(params, Json::Null);
        }
        other => panic!("unexpected {other:?}"),
    }
}

#[test]
fn errors_without_words_get_some() {
    match parse_line(r#"{"id":3,"error":{}}"#).unwrap() {
        IncomingMessage::Response {
            result: Err(error), ..
        } => {
            assert_eq!(error.code, None);
            assert_eq!(error.message, "未知 App Server 错误");
        }
        other => panic!("unexpected {other:?}"),
    }
}

#[test]
fn a_response_without_a_result_is_null() {
    assert_eq!(
        parse_line(r#"{"id":"x"}"#).unwrap(),
        IncomingMessage::Response {
            id: Json::text("x"),
            result: Ok(Json::Null),
        }
    );
}

#[test]
fn other_values_are_no_messages() {
    match parse_line("[1]") {
        Err(AppError::InvalidResponse(detail)) => assert_eq!(detail, "协议消息不是 JSON 对象"),
        other => panic!("unexpected {other:?}"),
    }
    match parse_line(r#"{"method": 3}"#) {
        Err(AppError::InvalidResponse(detail)) => {
            assert_eq!(detail, "协议消息既没有 id 也没有 method");
        }
        other => panic!("unexpected {other:?}"),
    }
}

#[test]
fn what_is_quoted_of_a_bad_line_is_redacted() {
    match parse_line("{ person@example.com bearer xyz") {
        Err(AppError::InvalidResponse(detail)) => {
            assert!(detail.starts_with("非法 JSON："));
            assert!(detail.contains("；片段={ p***@example.com"));
            assert!(!detail.contains("person@example.com"));
        }
        other => panic!("unexpected {other:?}"),
    }
}

#[test]
fn a_message_is_one_line() {
    let line = frame(&request(1, "a\nb", Some(json(r#"{"k": "v\nw", "l": [true, 1.5]}"#)))).unwrap();
    assert_eq!(
        line,
        b"{\"id\":1,\"method\":\"a\\nb\",\"params\":{\"k\":\"v\\nw\",\"l\":[true,1.5]}}\n"
    );
}

#[test]
fn values_are_written_and_read_back() {
    let text = r#"{"a":[null,true,"x",-3,18446744073709551615,0.25],"b":{"c":"d"}}"#;
    let value = json(text);
    let bytes = write_bytes(&value).unwrap();
    assert_eq!(bytes, text.as_bytes());
    assert_eq!(read_bytes(&bytes).unwrap(), value);
    assert!(read_bytes(b"{").is_err());
}

#[test]
fn numbers_are_seen_as_what_they_are() {
    let value = json(r#"{"i": -5, "u": 18446744073709551615, "f": 2.5, "s": "5"}"#);
    assert_eq!(value.signed_field("i"), Some(-5));
    assert_eq!(value.unsigned_field("i"), None);
    assert_eq!(value.unsigned_field("u"), Some(u64::MAX));
    assert_eq!(value.signed_field("u"), None);
    assert_eq!(value.signed_field("f"), None);
    assert_eq!(value.signed_field("s"), None);
    assert_eq!(value.get("f").unwrap().as_bits(), Some(2.5f64.to_bits()));
    assert_eq!(value.get("i").unwrap().as_bits(), Some((-5.0f64).to_bits()));
    assert_eq!(value.get("s").unwrap().as_bits(), None);
    assert_eq!(value.text_field("s").as_deref(), Some("5"));
    assert_eq!(value.text_field("i"), None);
    assert!(value.get("missing").is_none());
    assert!(Json::Null.get("x").is_none());
}

#[test]
fn the_last_of_two_fields_of_one_name_counts() {
    assert_eq!(
        json(r#"{"a": 1, "a": 2}"#).signed_field("a"),
        Some(2)
    );
}
