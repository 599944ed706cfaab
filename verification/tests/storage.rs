use codex_usage_monitor::account::AccountRecord;
use codex_usage_monitor::error::AppError;
use codex_usage_monitor::ids::{new_id, write_id};
use codex_usage_monitor::json::{read_bytes, read_text, write_bytes, Json};
use codex_usage_monitor::paths::{same_path, PathStyle};
use codex_usage_monitor::storage::{
    load_log, load_or_default, load_warning, migrate, AppConfig, AppSettings, Storage,
    ThemePreference, CURRENT_SCHEMA_VERSION,
};

fn json(text: &str) -> Json {
    read_text(text).unwrap()
}

fn storage() -> Storage {
    Storage::at("/tmp/data".to_owned(), PathStyle::Unix)
}

#[test]
fn migrates_schema_v1_and_fills_defaults() {
    let id = write_id(new_id());
    let value = json(&format!(
        "{{\"schema_version\": 1, \"accounts\": [{{\"id\": \"{id}\", \
         \"display_name\": \"主账号\", \"state_dir\": \"/tmp/example\"}}]}}"
    ));
    let config = migrate(value).unwrap();
    assert_eq!(
        config.unsigned_field("schema_version"),
        Some(CURRENT_SCHEMA_VERSION as u64)
    );
    assert_eq!(config.get("settings"), Some(&Json::empty_object()));
    assert!(AppSettings::default().auto_refresh_on_start);
    match config.get("accounts") {
        Some(Json::List(accounts)) => {
            assert_eq!(accounts[0].text_field("display_name").as_deref(), Some("主账号"));
            assert!(accounts[0].get("enabled").is_none());
        }
        other => panic!("unexpected {other:?}"),
    }
}

#[test]
fn migrates_schema_v2_for_full_email_cache_support() {
    let value = json(r#"{"schema_version": 2, "settings": {}, "accounts": []}"#);
    let config = migrate(value).unwrap();
    assert_eq!(
        config.unsigned_field("schema_version"),
        Some(CURRENT_SCHEMA_VERSION as u64)
    );
}

#[test]
fn saves_and_loads_atomically() {
    let storage = storage();
    let account = storage.new_account("账号 A".to_owned(), 0);
    let stored = json(&format!(
        "{{\"schema_version\": 3, \"settings\": {{}}, \"accounts\": [{{\"id\": \"{}\", \
         \"display_name\": \"{}\", \"state_dir\": \"{}\"}}]}}",
        write_id(account.id),
        account.display_name,
        account.state_dir
    ));
    let bytes = storage.save(stored.copy()).unwrap();
    let loaded = storage.load(&Some(bytes)).unwrap().unwrap();
    match loaded.get("accounts") {
        Some(Json::List(accounts)) => {
            assert_eq!(accounts.len(), 1);
            assert_eq!(
                accounts[0].text_field("display_name").as_deref(),
                Some("账号 A")
            );
        }
        other => panic!("unexpected {other:?}"),
    }
    assert_eq!(loaded, stored);
    assert_eq!(storage.config_path(), "/tmp/data/config.json");
    assert_eq!(storage.config_temp_path(), "/tmp/data/config.json.tmp");
}

#[test]
fn account_homes_are_isolated_and_deletion_is_scoped() {
    let storage = storage();
    let first = storage.new_account("A".to_owned(), 0);
    let second = storage.new_account("B".to_owned(), 1);
    assert_ne!(first.state_dir, second.state_dir);

    let deleted = storage.delete_account_home(&first).unwrap();
    assert_eq!(deleted, first.state_dir);
    assert!(!same_path(PathStyle::Unix, &deleted, &second.state_dir));

    let outside = AccountRecord {
        state_dir: "/tmp/outside".to_owned(),
        ..second
    };
    assert!(storage.delete_account_home(&outside).is_err());
}

#[test]
fn newer_and_shapeless_configurations_are_refused() {
    assert_eq!(
        migrate(json(r#"{"schema_version": 4}"#)),
        Err(AppError::Storage(
            "配置版本 4 高于应用支持的版本 3".to_owned()
        ))
    );
    assert_eq!(
        migrate(json("[]")),
        Err(AppError::Storage("配置根节点不是对象".to_owned()))
    );
    match storage().load(&Some(b"{".to_vec())) {
        Err(AppError::Storage(detail)) => assert!(detail.starts_with("config.json 损坏：")),
        other => panic!("unexpected {other:?}"),
    }
    assert_eq!(storage().load(&None), Ok(None));
}

#[test]
fn migration_keeps_the_rest_and_happens_once() {
    let value = json(r#"{"future": [1], "settings": {"theme": "dark"}}"#);
    let once = migrate(value).unwrap();
    assert_eq!(
        write_bytes(&once).unwrap(),
        br#"{"future":[1],"schema_version":3,"settings":{"theme":"dark"}}"#
    );
    let copy = once.copy();
    assert_eq!(migrate(once).unwrap(), copy);
    assert_eq!(
        migrate(json(r#"{"schema_version": 2}"#)).unwrap(),
        json(r#"{"schema_version": 3}"#)
    );
    assert_eq!(
        migrate(json(r#"{"schema_version": "x"}"#)).unwrap(),
        json(r#"{"schema_version": 3, "settings": {}}"#)
    );
}

#[test]
fn the_places_of_data_lie_below_the_root() {
    let storage = storage();
    assert_eq!(storage.logs_root(), "/tmp/data/logs");
    assert_eq!(storage.accounts_root(), "/tmp/data/accounts");
    assert_eq!(storage.recovery_root(), "/tmp/data/desktop-auth-recovery");
    let windows = Storage::at(r"C:\Users\Me\data".to_owned(), PathStyle::Windows);
    assert_eq!(windows.logs_root(), r"C:\Users\Me\data\logs");
    assert_eq!(
        windows.expected_account_home(1),
        r"C:\Users\Me\data\accounts\00000000-0000-0000-0000-000000000001"
    );
}

#[test]
fn accounts_elsewhere_are_not_managed() {
    let storage = storage();
    let own = storage.account_with_id(5, "A".to_owned(), 0);
    assert_eq!(storage.ensure_account_home(&own).unwrap(), own.state_dir);
    let elsewhere = AccountRecord {
        state_dir: "/elsewhere".to_owned(),
        ..storage.account_with_id(6, "B".to_owned(), 1)
    };
    let fault = AppError::Storage("账号目录不在受管数据目录中：/elsewhere".to_owned());
    assert_eq!(
        storage.ensure_account_home(&elsewhere),
        Err(AppError::Storage(
            "账号目录不在受管数据目录中：/elsewhere".to_owned()
        ))
    );
    assert_eq!(
        storage.delete_account_home(&elsewhere),
        Err(AppError::Storage("拒绝删除不属于本应用的目录".to_owned()))
    );
    assert_eq!(storage.validate_managed_accounts(&vec![]), Ok(()));
    assert_eq!(
        storage.validate_managed_accounts(&vec![own, elsewhere]),
        Err(fault)
    );
}

#[test]
fn defaults_are_those_of_a_first_run() {
    let config = AppConfig::default();
    assert_eq!(config.schema_version, 3);
    assert!(config.accounts.is_empty());
    assert_eq!(config.last_active_desktop_account_id, None);
    assert_eq!(config.settings.request_timeout_seconds, 20);
    assert_eq!(config.settings.stale_after_minutes, 15);
    assert_eq!(config.settings.theme, ThemePreference::default());
    assert_eq!(config.settings.theme, ThemePreference::System);
    assert!(!config.settings.desktop_switch_enabled);
}

#[test]
fn what_was_saved_is_loaded_in_the_current_version() {
    let storage = storage();
    for version in [0, 1, 3, 4_294_967_295_u64] {
        let config = json(&format!(
            "{{\"schema_version\": {version}, \"accounts\": [{{\"order\": 1}}, null, \"\\n字\"], \
             \"settings\": {{\"theme\": \"dark\", \"stale_after_minutes\": -5}}}}"
        ));
        let bytes = storage.save(config.copy()).unwrap();
        let loaded = storage.load(&Some(bytes)).unwrap().unwrap();
        assert_eq!(loaded.unsigned_field("schema_version"), Some(3));
        assert_eq!(loaded.get("accounts"), config.get("accounts"));
        assert_eq!(loaded.get("settings"), config.get("settings"));
    }
    assert_eq!(
        storage.save(json("{\"b\": 1}")).unwrap(),
        b"{\n  \"b\": 1,\n  \"schema_version\": 3\n}".to_vec()
    );
}

/// Whether two values are the same but for their doubles.
fn alike(a: &Json, b: &Json) -> bool {
    match (a, b) {
        (Json::Number(x), Json::Number(y)) if x.is_f64() => y.is_f64(),
        (Json::List(x), Json::List(y)) => {
            x.len() == y.len() && x.iter().zip(y).all(|(x, y)| alike(x, y))
        }
        (Json::Object(x), Json::Object(y)) => {
            x.len() == y.len()
                && x.iter()
                    .zip(y)
                    .all(|(x, y)| x.0 == y.0 && alike(&x.1, &y.1))
        }
        _ => a == b,
    }
}

#[test]
fn percentages_are_loaded_as_percentages_and_the_rest_as_it_was() {
    let storage = storage();
    let config = json(
        r#"{"accounts": [
            {"id": "b", "order": 1, "quota": {"windows": [
                {"used_percent": 37.5, "exhausted": false, "minutes": 300},
                {"used_percent": 0.1, "exhausted": true, "minutes": -1}]}},
            {"id": "a", "order": 0, "quota": null}],
            "numbers": [0.0, -0.0, 1e300, -1e300, 5e-324, 1e-300, 1e16, 123456789.123456789,
                33.333333333333336, 100.0, 9007199254740993, 18446744073709551615,
                -9223372036854775808, 0],
            "schema_version": 3, "settings": {"theme": "dark"}}"#,
    );
    let bytes = storage.save(config.copy()).unwrap();
    let loaded = storage.load(&Some(bytes)).unwrap().unwrap();
    assert!(alike(&config, &loaded));
    assert_eq!(loaded.get("settings"), config.get("settings"));
    assert_eq!(loaded.unsigned_field("schema_version"), Some(3));
    let compact = read_bytes(&write_bytes(&config).unwrap()).unwrap();
    assert!(alike(&config, &compact));
    assert!(!alike(&json("[1]"), &json("[1.0]")));
    assert!(!alike(&json("[1.0]"), &json("[1]")));
}

#[test]
fn a_start_without_a_readable_configuration_is_empty() {
    let mut config = AppConfig::default();
    config.settings.request_timeout_seconds = 99;
    let (started, warning) = load_or_default(Ok(config));
    assert_eq!(started.settings.request_timeout_seconds, 99);
    assert_eq!(warning, None);
    let error = AppError::Storage("x".to_owned());
    let words = load_warning(&error);
    let (started, warning) = load_or_default(Err(error));
    assert_eq!(started, AppConfig::default());
    assert_eq!(warning, Some(words));
}

#[test]
fn an_unreadable_configuration_is_told_redacted() {
    let error = AppError::Storage("user@example.com".to_owned());
    assert_eq!(
        load_warning(&error),
        "本地配置无法读取，已用空配置启动。原文件未被覆盖。\n本***@example.com"
    );
    assert_eq!(load_log(&error), "配置加载失败：本***@example.com");
}
