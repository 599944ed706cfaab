use codex_usage_monitor::error::AppError;
use codex_usage_monitor::json::{read_text, Json};
use codex_usage_monitor::rate_limits::{
    duration_label, parse_rate_limits, parse_token_usage, QuotaSnapshot, TokenUsageSummary,
};
use codex_usage_monitor::time::{
    compact_stamp, countdown, is_stale, stamp, timestamp_from_unknown_unit, Timestamp,
};

const NOW: Timestamp = Timestamp {
    seconds: 1_785_369_600,
    nanos: 0,
};

fn json(text: &str) -> Json {
    read_text(text).unwrap()
}

fn parsed(text: &str) -> QuotaSnapshot {
    parse_rate_limits(&json(text), NOW).unwrap()
}

fn used(snapshot: &QuotaSnapshot, i: usize) -> f32 {
    f64::from_bits(snapshot.windows[i].used_percent_bits) as f32
}

fn remaining(snapshot: &QuotaSnapshot, i: usize) -> f32 {
    (100.0 - f64::from_bits(snapshot.windows[i].used_percent_bits)) as f32
}

#[test]
fn clamps_invalid_percentages() {
    let snapshot = parsed(
        r#"{"rateLimitsByLimitId":{
            "a":{"primary":{"usedPercent":-2.5}},
            "b":{"primary":{"usedPercent":40.5}},
            "c":{"primary":{"usedPercent":120.0}}}}"#,
    );
    assert_eq!(remaining(&snapshot, 0), 100.0);
    assert_eq!(remaining(&snapshot, 1), 59.5);
    assert_eq!(remaining(&snapshot, 2), 0.0);
}

#[test]
fn whole_percentages_are_judged_exactly() {
    for (n, shown, exhausted) in [
        (-9_223_372_036_854_775_808_i128, 0.0, false),
        (-1, 0.0, false),
        (0, 0.0, false),
        (99, 99.0, false),
        (100, 100.0, true),
        (101, 100.0, true),
        (18_446_744_073_709_551_615, 100.0, true),
    ] {
        let snapshot = parsed(&format!(
            "{{\"rateLimits\": {{\"primary\": {{\"usedPercent\": {n}}}}}}}"
        ));
        assert_eq!(used(&snapshot, 0), shown, "{n}");
        assert_eq!(snapshot.windows[0].exhausted, exhausted, "{n}");
    }
}

#[test]
fn whole_numbers_are_doubles_of_the_same_value() {
    for n in 0..100_u32 {
        let snapshot = parsed(&format!(
            "{{\"rateLimits\": {{\"primary\": {{\"usedPercent\": {n}}}}}}}"
        ));
        assert_eq!(
            snapshot.windows[0].used_percent_bits,
            f64::from(n).to_bits()
        );
    }
    for (text, bits) in [
        ("0", 0),
        ("1", 0x3ff0_0000_0000_0000),
        ("40", 0x4044_0000_0000_0000),
        ("-40", 0xc044_0000_0000_0000),
        ("9007199254740991", 0x433f_ffff_ffff_ffff),
        ("-9007199254740991", 0xc33f_ffff_ffff_ffff),
    ] {
        assert_eq!(json(text).as_bits(), Some(bits), "{text}");
    }
}

#[test]
fn no_two_lengths_share_a_label() {
    let mut labels: Vec<String> = (-3_000..12_000).map(duration_label).collect();
    let count = labels.len();
    labels.sort();
    labels.dedup();
    assert_eq!(labels.len(), count);
}

#[test]
fn parses_multi_bucket_and_unknown_fields() {
    let result = parsed(
        r#"{
            "rateLimits": {"primary": {"usedPercent": 99}},
            "rateLimitsByLimitId": {
                "codex": {
                    "limitId": "codex",
                    "limitName": "Codex",
                    "primary": {
                        "usedPercent": 24.5,
                        "windowDurationMins": 300,
                        "resetsAt": 1735689600,
                        "futureField": "ignored"
                    },
                    "secondary": {
                        "usedPercent": 101,
                        "windowDurationMins": 10080,
                        "resetsAt": null
                    },
                    "spendControlReached": false
                },
                "other": {
                    "primary": {"usedPercent": -4}
                }
            },
            "rateLimitResetCredits": {"availableCount": 2},
            "newTopLevelField": true
        }"#,
    );
    assert_eq!(result.windows.len(), 3);
    assert_eq!(remaining(&result, 0), 75.5);
    assert!(result.windows[1].exhausted);
    assert_eq!(used(&result, 2), 0.0);
    assert_eq!(result.reset_credits_available, Some(2));

    assert_eq!(result.queried_at, NOW);
    assert_eq!(result.spend_control_reached, Some(false));
    assert_eq!(result.rate_limit_reached_type, None);
    assert_eq!(result.windows[0].limit_id.as_deref(), Some("codex"));
    assert_eq!(result.windows[0].official_name.as_deref(), Some("Codex"));
    assert_eq!(result.windows[0].local_name, "Codex · 5 小时");
    assert_eq!(result.windows[0].kind, "primary");
    assert_eq!(
        result.windows[0].resets_at,
        Some(Timestamp {
            seconds: 1_735_689_600,
            nanos: 0
        })
    );
    assert_eq!(result.windows[1].local_name, "Codex · 每周");
    assert_eq!(result.windows[1].kind, "secondary");
    assert_eq!(used(&result, 1), 100.0);
    assert_eq!(result.windows[2].local_name, "主要额度窗口 · other");
    assert!(!result.windows[2].exhausted);
}

#[test]
fn skips_missing_window_fields_and_handles_no_reset() {
    let result = parsed(
        r#"{"rateLimits": {
            "primary": {"windowDurationMins": 300},
            "secondary": {"usedPercent": 10.0}
        }}"#,
    );
    assert_eq!(result.windows.len(), 1);
    assert_eq!(result.windows[0].resets_at, None);
    assert_eq!(result.windows[0].local_name, "次要额度窗口");
}

#[test]
fn accepts_seconds_milliseconds_and_microseconds() {
    let expected = timestamp_from_unknown_unit(1_735_689_600);
    assert_eq!(expected, timestamp_from_unknown_unit(1_735_689_600_000));
    assert_eq!(expected, timestamp_from_unknown_unit(1_735_689_600_000_000));
    assert_eq!(
        expected,
        Some(Timestamp {
            seconds: 1_735_689_600,
            nanos: 0
        })
    );
}

#[test]
fn times_without_a_date_are_left_out() {
    assert_eq!(timestamp_from_unknown_unit(i64::MAX), None);
    assert_eq!(timestamp_from_unknown_unit(i64::MIN), None);
    assert_eq!(
        timestamp_from_unknown_unit(-1_500),
        Some(Timestamp {
            seconds: -1_500,
            nanos: 0
        })
    );
    assert_eq!(
        timestamp_from_unknown_unit(-150_000_000_001),
        Some(Timestamp {
            seconds: -150_000_000,
            nanos: 0
        })
    );
}

#[test]
fn the_range_of_dates_is_that_of_the_calendar() {
    let first = Timestamp {
        seconds: -8_334_601_228_800,
        nanos: 0,
    };
    let before = Timestamp {
        seconds: -8_334_601_228_801,
        nanos: 0,
    };
    let last = Timestamp {
        seconds: 8_210_266_876_799,
        nanos: 0,
    };
    let after = Timestamp {
        seconds: 8_210_266_876_800,
        nanos: 0,
    };
    assert!(chrono::DateTime::from_timestamp(first.seconds, 0).is_some());
    assert!(chrono::DateTime::from_timestamp(before.seconds, 0).is_none());
    assert!(chrono::DateTime::from_timestamp(last.seconds, 0).is_some());
    assert!(chrono::DateTime::from_timestamp(after.seconds, 0).is_none());
    assert!(stamp(first).is_some());
    assert!(stamp(before).is_none());
    assert!(stamp(last).is_some());
    assert!(stamp(after).is_none());
    assert_eq!(
        timestamp_from_unknown_unit(8_210_266_876_799_000_000),
        Some(last)
    );
    assert_eq!(timestamp_from_unknown_unit(8_210_266_876_800_000_000), None);
}

#[test]
fn times_are_written_for_logs_and_file_names() {
    let time = Timestamp {
        seconds: 1_735_689_600,
        nanos: 125_000_000,
    };
    assert_eq!(stamp(time).unwrap(), "2025-01-01T00:00:00.125+00:00");
    assert_eq!(compact_stamp(time).unwrap(), "20250101T000000.125Z");
    let none = Timestamp {
        seconds: 0,
        nanos: 1_000_000_000,
    };
    assert!(stamp(none).is_none());
    assert!(compact_stamp(none).is_none());
}

#[test]
fn both_fields_missing_is_incompatible() {
    match parse_rate_limits(&json("{}"), NOW) {
        Err(AppError::ProtocolIncompatible(detail)) => {
            assert_eq!(detail, "响应缺少 rateLimits 和 rateLimitsByLimitId");
        }
        other => panic!("unexpected {other:?}"),
    }
}

#[test]
fn an_empty_map_falls_back_to_the_older_field() {
    let result = parsed(
        r#"{"rateLimitsByLimitId": {}, "rateLimits":
            {"limitId": "old", "primary": {"usedPercent": 100},
             "rateLimitReachedType": "weekly", "spendControlReached": true}}"#,
    );
    assert_eq!(result.windows.len(), 1);
    assert_eq!(result.windows[0].local_name, "主要额度窗口 · old");
    assert!(result.windows[0].exhausted);
    assert_eq!(result.rate_limit_reached_type.as_deref(), Some("weekly"));
    assert_eq!(result.spend_control_reached, Some(true));
}

#[test]
fn limits_come_in_the_order_of_their_names() {
    let result = parsed(
        r#"{"rateLimitsByLimitId": {
            "b": {"primary": {"usedPercent": 2}, "rateLimitReachedType": "second"},
            "a": {"secondary": {"usedPercent": 1}, "rateLimitReachedType": "first"}}}"#,
    );
    assert_eq!(result.windows[0].limit_id.as_deref(), Some("a"));
    assert_eq!(result.windows[1].limit_id.as_deref(), Some("b"));
    assert_eq!(result.rate_limit_reached_type.as_deref(), Some("first"));
}

#[test]
fn windows_that_last_no_time_have_no_duration() {
    let result = parsed(r#"{"rateLimits": {"primary": {"usedPercent": 1, "windowDurationMins": 0}}}"#);
    assert_eq!(result.windows[0].window_duration_minutes, None);
}

#[test]
fn durations_are_named() {
    assert_eq!(duration_label(60), "1 小时");
    assert_eq!(duration_label(300), "5 小时");
    assert_eq!(duration_label(1_440), "每日");
    assert_eq!(duration_label(10_080), "每周");
    assert_eq!(duration_label(2_880), "2 天窗口");
    assert_eq!(duration_label(120), "2 小时窗口");
    assert_eq!(duration_label(61), "61 分钟窗口");
    assert_eq!(duration_label(0), "0 天窗口");
    assert_eq!(duration_label(-2_880), "-2 天窗口");
    assert_eq!(duration_label(-7), "-7 分钟窗口");
}

#[test]
fn token_usage_is_read_field_by_field() {
    assert_eq!(parse_token_usage(&json("{}")), None);
    assert_eq!(
        parse_token_usage(&json(
            r#"{"summary": {"lifetimeTokens": 1234, "currentStreakDays": "x",
                "longestStreakDays": 5, "peakDailyTokens": -1, "longestRunningTurnSec": 9.5}}"#
        )),
        Some(TokenUsageSummary {
            lifetime_tokens: Some(1234),
            current_streak_days: None,
            longest_streak_days: Some(5),
            peak_daily_tokens: Some(-1),
            longest_running_turn_seconds: None,
        })
    );
}

#[test]
fn cache_staleness_and_countdown_are_explicit() {
    let earlier = |minutes: i64| Timestamp {
        seconds: NOW.seconds - minutes * 60,
        nanos: 0,
    };
    assert!(is_stale(earlier(20), NOW, 15));
    assert!(!is_stale(earlier(2), NOW, 15));
    assert!(countdown(earlier(-120), NOW).contains("小时"));
    assert!(is_stale(earlier(15), NOW, 15));
}

#[test]
fn countdowns_are_worded() {
    let later = |seconds: i64| Timestamp {
        seconds: NOW.seconds + seconds,
        nanos: 0,
    };
    assert_eq!(countdown(NOW, NOW), "已到重置时间，等待官方刷新");
    assert_eq!(countdown(later(-5), NOW), "已到重置时间，等待官方刷新");
    assert_eq!(countdown(later(30), NOW), "还有 1 分钟");
    assert_eq!(countdown(later(3_599), NOW), "还有 59 分钟");
    assert_eq!(countdown(later(7_260), NOW), "还有 2 小时 1 分钟");
    assert_eq!(countdown(later(90_000), NOW), "还有 1 天 1 小时");
}
