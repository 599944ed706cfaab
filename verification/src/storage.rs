//! Where the application keeps its data, and the shape of its configuration.

use vstd::prelude::*;

use crate::account::AccountRecord;
use crate::account_switch::bytes_of;
use crate::error::{AppError, ErrorModel};
use crate::ids::{id_words, lemma_ids_are_written_apart, new_id, write_id};
use crate::json::{
    alike, alike_where_any, is_exact, is_readable, is_settled, json_as_pretty_bytes, json_in_bytes,
    lemma_alike_fields, lemma_exact_is_alike_to_itself, lemma_put_keeps_names,
    lemma_put_then_lookup, lemma_settled_stays, lookup, names_ascend, ordered, put, read_bytes,
    write_pretty_bytes, Json, JsonModel, NumberModel,
};
use crate::paths::{
    below, is_plain_name, join, lemma_below, same_path, same_place, PathStyle,
};
use crate::protocol::model_of;
use crate::text::{digits, digits_text, sorts_before};

verus! {

/// The version of the configuration that is written.
pub const CURRENT_SCHEMA_VERSION: u32 = 3;

/// The colours of the window.
#[derive(Debug, Clone, Copy, PartialEq, Eq, Structural)]
pub enum ThemePreference {
    System,
    Light,
    Dark,
}

impl Default for ThemePreference {
    fn default() -> (r: ThemePreference)
        ensures
            r == ThemePreference::System,
    {
        ThemePreference::System
    }
}

/// What the user chose.
#[derive(Debug, PartialEq, Eq)]
pub struct AppSettings {
    pub auto_refresh_on_start: bool,
    pub custom_codex_path: Option<String>,
    pub request_timeout_seconds: u64,
    pub stale_after_minutes: i64,
    pub theme: ThemePreference,
    pub desktop_switch_enabled: bool,
    pub desktop_codex_home: Option<String>,
}

impl AppSettings {
    /// The settings before the user chose anything.
    pub open spec fn initial() -> AppSettings {
        AppSettings {
            auto_refresh_on_start: true,
            custom_codex_path: None,
            request_timeout_seconds: 20,
            stale_after_minutes: 15,
            theme: ThemePreference::System,
            desktop_switch_enabled: false,
            desktop_codex_home: None,
        }
    }
}

impl Default for AppSettings {
    fn default() -> (r: AppSettings)
        ensures
            r == AppSettings::initial(),
    {
        AppSettings {
            auto_refresh_on_start: true,
            custom_codex_path: None,
            request_timeout_seconds: 20,
            stale_after_minutes: 15,
            theme: ThemePreference::System,
            desktop_switch_enabled: false,
            desktop_codex_home: None,
        }
    }
}

/// All that is kept between two runs.
#[derive(Debug, PartialEq, Eq)]
pub struct AppConfig {
    pub schema_version: u32,
    pub settings: AppSettings,
    pub accounts: Vec<AccountRecord>,
    pub last_active_desktop_account_id: Option<u128>,
}

impl AppConfig {
    /// Whether this is the configuration before anything was kept.
    pub open spec fn is_initial(self) -> bool {
        &&& self.schema_version == CURRENT_SCHEMA_VERSION
        &&& self.settings == AppSettings::initial()
        &&& self.accounts@.len() == 0
        &&& self.last_active_desktop_account_id is None
    }
}

impl Default for AppConfig {
    fn default() -> (r: AppConfig)
        ensures
            r.is_initial(),
    {
        AppConfig {
            schema_version: CURRENT_SCHEMA_VERSION,
            settings: AppSettings::default(),
            accounts: Vec::new(),
            last_active_desktop_account_id: None,
        }
    }
}

/// The places where the application keeps its data.
#[derive(Debug, PartialEq, Eq)]
pub struct Storage {
    pub root: String,
    pub style: PathStyle,
    pub config_path: String,
    pub accounts_root: String,
    pub logs_root: String,
    pub recovery_root: String,
}

impl Storage {
    /// Whether all places lie below the root under their names.
    pub open spec fn well_formed(self) -> bool {
        &&& self.config_path@ == below(self.style, self.root@, "config.json"@)
        &&& self.accounts_root@ == below(self.style, self.root@, "accounts"@)
        &&& self.logs_root@ == below(self.style, self.root@, "logs"@)
        &&& self.recovery_root@ == below(self.style, self.root@, "desktop-auth-recovery"@)
    }

    /// The home of an account.
    pub open spec fn home(self, id: u128) -> Seq<char> {
        below(self.style, below(self.style, self.root@, "accounts"@), id_words(id))
    }

    /// The places below a root.
    pub fn at(root: String, style: PathStyle) -> (r: Storage)
        ensures
            r.well_formed(),
            r.root == root,
            r.style == style,
    {
        let config_path = join(style, root.as_str(), "config.json");
        let accounts_root = join(style, root.as_str(), "accounts");
        let logs_root = join(style, root.as_str(), "logs");
        let recovery_root = join(style, root.as_str(), "desktop-auth-recovery");
        Storage { root, style, config_path, accounts_root, logs_root, recovery_root }
    }

    /// The directory of the log files.
    pub fn logs_root(&self) -> (r: &String)
        requires
            self.well_formed(),
        ensures
            r@ == below(self.style, self.root@, "logs"@),
    {
        &self.logs_root
    }

    /// The directory of the account homes.
    pub fn accounts_root(&self) -> (r: &String)
        requires
            self.well_formed(),
        ensures
            r@ == below(self.style, self.root@, "accounts"@),
    {
        &self.accounts_root
    }

    /// The directory of the copies that a switch makes of credentials.
    pub fn recovery_root(&self) -> (r: &String)
        requires
            self.well_formed(),
        ensures
            r@ == below(self.style, self.root@, "desktop-auth-recovery"@),
    {
        &self.recovery_root
    }

    /// The configuration file.
    pub fn config_path(&self) -> (r: &String)
        requires
            self.well_formed(),
        ensures
            r@ == below(self.style, self.root@, "config.json"@),
    {
        &self.config_path
    }

    /// The file that a configuration is written to before it takes the place of
    /// the one before.
    pub fn config_temp_path(&self) -> (r: String)
        ensures
            r@ == below(self.style, self.root@, "config.json.tmp"@),
    {
        join(self.style, self.root.as_str(), "config.json.tmp")
    }

    /// The home that belongs to an account.
    pub fn expected_account_home(&self, id: u128) -> (r: String)
        requires
            self.well_formed(),
        ensures
            r@ == self.home(id),
    {
        join(self.style, self.accounts_root.as_str(), write_id(id).as_str())
    }

    /// The record of an account with a given identifier, in its own home.
    pub fn account_with_id(&self, id: u128, display_name: String, order: u32) -> (r: AccountRecord)
        requires
            self.well_formed(),
        ensures
            r.id == id,
            r.display_name == display_name,
            r.state_dir@ == self.home(id),
            r.enabled,
            r.order == order,
            r.last_success is None,
            r.last_attempt_at is None,
    {
        AccountRecord {
            id,
            display_name,
            state_dir: self.expected_account_home(id),
            enabled: true,
            order,
            last_success: None,
            last_attempt_at: None,
        }
    }

    /// The record of a new account with a fresh identifier, in its own home,
    /// which is still to be made.
    pub fn new_account(&self, display_name: String, order: u32) -> (r: AccountRecord)
        requires
            self.well_formed(),
        ensures
            r.id != 0,
            r.display_name == display_name,
            r.state_dir@ == self.home(r.id),
            r.enabled,
            r.order == order,
            r.last_success is None,
            r.last_attempt_at is None,
    {
        self.account_with_id(new_id(), display_name, order)
    }

    /// Whether an account keeps its state in the home that belongs to it.
    pub open spec fn keeps_own_home(self, account: AccountRecord) -> bool {
        same_place(self.style, account.state_dir@, self.home(account.id))
    }

    /// The home of an account, to be made where it is missing; refused where
    /// the account names another place.
    pub fn ensure_account_home(&self, account: &AccountRecord) -> (r: Result<String, AppError>)
        requires
            self.well_formed(),
        ensures
            match r {
                Ok(path) => self.keeps_own_home(*account) && path@ == self.home(account.id),
                Err(e) => !self.keeps_own_home(*account) && e@ == ErrorModel::Storage(
                    "账号目录不在受管数据目录中："@ + account.state_dir@,
                ),
            },
    {
        let expected = self.expected_account_home(account.id);
        if same_path(self.style, account.state_dir.as_str(), expected.as_str()) {
            Ok(expected)
        } else {
            let mut detail = "账号目录不在受管数据目录中：".to_owned();
            detail.append(account.state_dir.as_str());
            Err(AppError::Storage(detail))
        }
    }

    /// The home of an account, to be deleted; refused where the account names
    /// another place.
    pub fn delete_account_home(&self, account: &AccountRecord) -> (r: Result<String, AppError>)
        requires
            self.well_formed(),
        ensures
            match r {
                Ok(path) => self.keeps_own_home(*account) && path@ == self.home(account.id),
                Err(e) => !self.keeps_own_home(*account) && e@ == ErrorModel::Storage(
                    "拒绝删除不属于本应用的目录"@,
                ),
            },
    {
        let expected = self.expected_account_home(account.id);
        if same_path(self.style, account.state_dir.as_str(), expected.as_str()) {
            Ok(expected)
        } else {
            Err(AppError::Storage("拒绝删除不属于本应用的目录".to_owned()))
        }
    }

    /// Whether every account of a list keeps its own home.
    pub open spec fn all_keep_own_home(self, accounts: Seq<AccountRecord>) -> bool {
        forall|i: int| 0 <= i < accounts.len() ==> self.keeps_own_home(#[trigger] accounts[i])
    }

    /// Whether an error names the place of the first account of a list that does
    /// not keep its own home.
    pub open spec fn is_first_misplaced(
        self,
        accounts: Seq<AccountRecord>,
        error: ErrorModel,
    ) -> bool {
        exists|i: int|
            0 <= i < accounts.len() && !self.keeps_own_home(#[trigger] accounts[i]) && (forall|
                j: int,
            |
                0 <= j < i ==> self.keeps_own_home(#[trigger] accounts[j])) && error
                == ErrorModel::Storage(
                "账号目录不在受管数据目录中："@ + accounts[i].state_dir@,
            )
    }

    /// Refuses a list of accounts of which one does not keep its own home.
    pub fn validate_managed_accounts(&self, accounts: &Vec<AccountRecord>) -> (r: Result<
        (),
        AppError,
    >)
        requires
            self.well_formed(),
        ensures
            match r {
                Ok(_) => self.all_keep_own_home(accounts@),
                Err(e) => self.is_first_misplaced(accounts@, e@),
            },
    {
        let mut i: usize = 0;
        while i < accounts.len()
            invariant
                self.well_formed(),
                i <= accounts@.len(),
                forall|j: int| 0 <= j < i ==> self.keeps_own_home(#[trigger] accounts@[j]),
            decreases accounts@.len() - i,
        {
            if let Err(e) = self.ensure_account_home(&accounts[i]) {
                assert(!self.keeps_own_home(accounts@[i as int]));
                return Err(e);
            }
            i = i + 1;
        }
        Ok(())
    }

    /// Reads the configuration out of the bytes of its file; nothing where
    /// there is no file yet.
    pub fn load(&self, content: &Option<Vec<u8>>) -> (r: Result<Option<Json>, AppError>)
        ensures
            match r {
                Ok(json) => loaded(bytes_of(*content)) == Ok::<Option<JsonModel>, ErrorModel>(
                    model_of(json),
                ),
                Err(e) => loaded(bytes_of(*content)) == Err::<Option<JsonModel>, ErrorModel>(e@),
            },
    {
        match content {
            None => Ok(None),
            Some(bytes) => match read_bytes(bytes.as_slice()) {
                Err(words) => {
                    let mut detail = "config.json 损坏：".to_owned();
                    detail.append(words.as_str());
                    Err(AppError::Storage(detail))
                },
                Ok(value) => match migrate(value) {
                    Ok(done) => Ok(Some(done)),
                    Err(e) => Err(e),
                },
            },
        }
    }

    /// Writes a configuration for its file, in the current version whatever
    /// version it says it has. What was written is read again, but for its
    /// doubles.
    pub fn save(&self, config: Json) -> (r: Result<Vec<u8>, AppError>)
        ensures
            match r {
                Ok(bytes) => json_as_pretty_bytes(stored(config@)) == Ok::<Seq<u8>, Seq<char>>(
                    bytes@,
                ) && (is_readable(stored(config@), 127) ==> (json_in_bytes(bytes@) matches Ok(read)
                    && alike(stored(config@), read))),
                Err(e) => json_as_pretty_bytes(stored(config@)) matches Err(words) && e@
                    == ErrorModel::Storage(words),
            },
    {
        let current = config.with_field_put("schema_version", Json::unsigned(3));
        match write_pretty_bytes(&current) {
            Ok(bytes) => Ok(bytes),
            Err(words) => Err(AppError::Storage(words)),
        }
    }
}

/// What the bytes of the configuration file hold, in the current version; nothing
/// where there is no file yet.
pub open spec fn loaded(content: Option<Seq<u8>>) -> Result<Option<JsonModel>, ErrorModel> {
    match content {
        None => Ok(None),
        Some(bytes) => match json_in_bytes(bytes) {
            Err(words) => Err(ErrorModel::Storage("config.json 损坏："@ + words)),
            Ok(value) => match migrated(value) {
                Ok(done) => Ok(Some(done)),
                Err(fault) => Err(fault),
            },
        },
    }
}

/// A configuration as it is written: in the current version.
pub open spec fn stored(config: JsonModel) -> JsonModel {
    match config {
        JsonModel::Object(fields) => ordered(
            JsonModel::Object(
                put(fields, "schema_version"@, JsonModel::Number(NumberModel::Whole(3))),
            ),
        ),
        other => ordered(other),
    }
}

/// The version that a stored configuration says it has.
pub open spec fn stored_version(value: JsonModel) -> u64 {
    match value.unsigned_field("schema_version"@) {
        Some(version) => version,
        None => 1,
    }
}

/// A stored configuration in the current version, or why it cannot be read.
pub open spec fn migrated(value: JsonModel) -> Result<JsonModel, ErrorModel> {
    let version = stored_version(value);
    if version > 3 {
        Err(
            ErrorModel::Storage(
                "配置版本 "@ + digits(version as nat) + " 高于应用支持的版本 3"@,
            ),
        )
    } else if version < 3 {
        match value {
            JsonModel::Object(fields) => {
                let raised = put(
                    fields,
                    "schema_version"@,
                    JsonModel::Number(NumberModel::Whole(3)),
                );
                Ok(
                    JsonModel::Object(
                        if version == 1 && lookup(raised, "settings"@) is None {
                            put(raised, "settings"@, JsonModel::Object(Seq::empty()))
                        } else {
                            raised
                        },
                    ),
                )
            },
            _ => Err(ErrorModel::Storage("配置根节点不是对象"@)),
        }
    } else {
        Ok(value)
    }
}

/// Brings a stored configuration to the current version.
pub fn migrate(value: Json) -> (r: Result<Json, AppError>)
    ensures
        match r {
            Ok(json) => migrated(value@) == Ok::<JsonModel, ErrorModel>(json@),
            Err(e) => migrated(value@) == Err::<JsonModel, ErrorModel>(e@),
        },
{
    let version: u64 = match value.unsigned_field("schema_version") {
        Some(version) => version,
        None => 1,
    };
    if version > 3 {
        let mut detail = "配置版本 ".to_owned();
        detail.append(digits_text(version as u128).as_str());
        detail.append(" 高于应用支持的版本 3");
        return Err(AppError::Storage(detail));
    }
    if version == 3 {
        return Ok(value);
    }
    match value {
        Json::Object(_) => {
            let raised = value.with_field_put("schema_version", Json::unsigned(3));
            if version == 1 && raised.get("settings").is_none() {
                Ok(raised.with_field_put("settings", Json::empty_object()))
            } else {
                Ok(raised)
            }
        },
        _ => Err(AppError::Storage("配置根节点不是对象".to_owned())),
    }
}

/// What the user is told of a configuration that cannot be read.
pub fn load_warning(error: &AppError) -> (r: String)
    ensures
        r@ == "本地配置无法读取，已用空配置启动。原文件未被覆盖。\n"@ + error@.diagnosis(),
{
    let mut out = "本地配置无法读取，已用空配置启动。原文件未被覆盖。\n".to_owned();
    out.append(error.diagnostic().as_str());
    out
}

/// The configuration to start with: the one that was read, or an empty one and
/// what the user is told where none could be.
pub fn load_or_default(loaded: Result<AppConfig, AppError>) -> (r: (AppConfig, Option<String>))
    ensures
        match loaded {
            Ok(config) => r.0 == config && r.1 is None,
            Err(error) => r.0.is_initial() && (r.1 matches Some(words) && words@
                == "本地配置无法读取，已用空配置启动。原文件未被覆盖。\n"@ + error@.diagnosis()),
        },
{
    match loaded {
        Ok(config) => (config, None),
        Err(error) => (AppConfig::default(), Some(load_warning(&error))),
    }
}

/// What the log says of a configuration that cannot be read.
pub fn load_log(error: &AppError) -> (r: String)
    ensures
        r@ == "配置加载失败："@ + error@.diagnosis(),
{
    let mut out = "配置加载失败：".to_owned();
    out.append(error.diagnostic().as_str());
    out
}

/// A configuration that was brought to the current version says so, keeps every
/// field but the version and, where they were missing, the settings, and stays
/// as it is when it is brought to the current version again.
pub proof fn lemma_migration(value: JsonModel, other: Seq<char>)
    requires
        migrated(value) is Ok,
        other != "schema_version"@,
        other != "settings"@,
    ensures
        stored_version(migrated(value)->Ok_0) == 3,
        migrated(migrated(value)->Ok_0) == migrated(value),
        migrated(value)->Ok_0.field(other) == value.field(other),
        value.field("settings"@) is Some ==> migrated(value)->Ok_0.field("settings"@)
            == value.field("settings"@),
{
    reveal_strlit("schema_version");
    reveal_strlit("settings");
    let three = JsonModel::Number(NumberModel::Whole(3));
    assert("schema_version"@.len() != "settings"@.len());
    if stored_version(value) < 3 {
        let fields = value->Object_0;
        let raised = put(fields, "schema_version"@, three);
        lemma_put_then_lookup(fields, "schema_version"@, three, other);
        lemma_put_then_lookup(fields, "schema_version"@, three, "settings"@);
        let empty = JsonModel::Object(Seq::empty());
        lemma_put_then_lookup(raised, "settings"@, empty, other);
        lemma_put_then_lookup(raised, "settings"@, empty, "schema_version"@);
        assert(three.unsigned() == Some(3u64));
    }
}

/// What was saved is what is loaded, but for its doubles: bytes that read as a
/// configuration that was written load as what was read, in the current version.
/// Every other field is there where it was, and alike: its lists have as many
/// items, in the same order, its objects have the same fields, and every text,
/// flag and whole number in it is as it was. A field without a double is as it
/// was altogether.
pub proof fn lemma_saved_is_loaded(
    config: JsonModel,
    bytes: Seq<u8>,
    read: JsonModel,
    other: Seq<char>,
)
    requires
        json_in_bytes(bytes) == Ok::<JsonModel, Seq<char>>(read),
        alike(stored(config), read),
        config is Object,
        is_settled(config),
        config.field("schema_version"@) is Some,
        other != "schema_version"@,
    ensures
        loaded(Some(bytes)) == Ok::<Option<JsonModel>, ErrorModel>(Some(read)),
        stored_version(read) == 3,
        alike_where_any(config.field(other), read.field(other)),
        config.text_field(other) == read.text_field(other),
        config.flag_field(other) == read.flag_field(other),
        config.signed_field(other) == read.signed_field(other),
        config.unsigned_field(other) == read.unsigned_field(other),
        config.field(other) matches Some(value) ==> is_exact(value) ==> read.field(other) == Some(
            value,
        ),
{
    let fields = config->Object_0;
    let three = JsonModel::Number(NumberModel::Whole(3));
    let done = put(fields, "schema_version"@, three);
    lemma_put_then_lookup(fields, "schema_version"@, three, other);
    lemma_put_keeps_names(fields, "schema_version"@, three);
    assert(names_ascend(fields));
    assert forall|i: int, j: int| 0 <= i < j < done.len() implies sorts_before(
        done[i].0,
        done[j].0,
    ) by {
        assert(sorts_before(fields[i].0, fields[j].0));
    }
    assert forall|i: int| 0 <= i < done.len() implies is_settled((#[trigger] done[i]).1) by {
        assert(is_settled(fields[i].1));
        assert(is_settled(three));
    }
    let current = JsonModel::Object(done);
    assert(is_settled(current)) by {
        assert(current->Object_0 == done);
        assert(names_ascend(done));
    }
    lemma_settled_stays(current);
    assert(three.unsigned() == Some(3u64));
    lemma_alike_fields(current, read, "schema_version"@);
    lemma_alike_fields(current, read, other);
    if config.field(other) is Some && is_exact(config.field(other)->0) {
        lemma_exact_is_alike_to_itself(config.field(other)->0, read.field(other)->0);
    }
}

proof fn lemma_id_is_plain(id: u128)
    ensures
        is_plain_name(id_words(id)),
{
    reveal_strlit(".");
    let s = id_words(id);
    assert(s.len() == 36);
    assert forall|i: int| 0 <= i < s.len() implies (#[trigger] s[i]) != '/' && s[i] != '\\' && s[i]
        != ':' by {
        if !crate::ids::is_hyphen_place(i) {
            let k = crate::ids::digits_before(i);
            let shift = (124 - 4 * k) as u128;
            assert((id >> shift) & 0xf < 16) by (bit_vector);
        }
    }
}

/// Two accounts share a home only if they are the same, also where homes are
/// compared part by part.
pub proof fn lemma_homes_are_apart(storage: Storage, a: u128, b: u128)
    ensures
        same_place(storage.style, storage.home(a), storage.home(b)) <==> a == b,
{
    let style = storage.style;
    let root = below(style, storage.root@, "accounts"@);
    lemma_id_is_plain(a);
    lemma_id_is_plain(b);
    lemma_below(style, root, id_words(a));
    lemma_below(style, root, id_words(b));
    if same_place(style, storage.home(a), storage.home(b)) {
        lemma_ids_are_written_apart(a, b);
    }
}

/// What may be deleted for one account is the home of no other.
pub proof fn lemma_deletion_is_scoped(storage: Storage, account: AccountRecord, other: u128)
    requires
        storage.keeps_own_home(account),
        account.id != other,
    ensures
        !same_place(storage.style, account.state_dir@, storage.home(other)),
{
    lemma_homes_are_apart(storage, account.id, other);
}

/// A configuration can be read exactly if it is of the current version, or is an
/// object of an older one; one without a version is of the first. Settings are only
/// added where the first version has none, and then without anything in them.
pub proof fn lemma_readable_versions(value: JsonModel)
    ensures
        value.unsigned_field("schema_version"@) is None ==> stored_version(value) == 1,
        value.unsigned_field("schema_version"@) matches Some(version) ==> stored_version(value)
            == version,
        migrated(value) is Ok <==> stored_version(value) == 3 || (stored_version(value) < 3
            && value is Object),
        stored_version(value) == 3 ==> migrated(value) == Ok::<JsonModel, ErrorModel>(value),
        migrated(value) matches Ok(done) ==> value.field("settings"@) is None ==> (
        stored_version(value) == 1 ==> done.field("settings"@) == Some(
            JsonModel::Object(Seq::empty()),
        )) && (stored_version(value) != 1 ==> done.field("settings"@) is None),
        migrated(value) matches Err(e) ==> e is Storage,
{
    reveal_strlit("schema_version");
    reveal_strlit("settings");
    assert("schema_version"@.len() != "settings"@.len());
    let three = JsonModel::Number(NumberModel::Whole(3));
    if stored_version(value) < 3 && value is Object {
        let fields = value->Object_0;
        let raised = put(fields, "schema_version"@, three);
        lemma_put_then_lookup(fields, "schema_version"@, three, "settings"@);
        lemma_put_then_lookup(
            raised,
            "settings"@,
            JsonModel::Object(Seq::empty()),
            "schema_version"@,
        );
    }
}

/// Without a file nothing is loaded and nothing is wrong; a file that is no JSON is an
/// error, and any other gives what it holds in the current version.
pub proof fn lemma_loading(bytes: Seq<u8>)
    ensures
        loaded(None) == Ok::<Option<JsonModel>, ErrorModel>(None),
        json_in_bytes(bytes) is Err ==> (loaded(Some(bytes)) matches Err(ErrorModel::Storage(_))),
        json_in_bytes(bytes) matches Ok(value) ==> (migrated(value) matches Ok(done) ==> loaded(
            Some(bytes),
        ) == Ok::<Option<JsonModel>, ErrorModel>(Some(done))) && (migrated(value) matches Err(e)
            ==> loaded(Some(bytes)) == Err::<Option<JsonModel>, ErrorModel>(e)),
{
}

/// Before the user chose anything the desktop application is left alone, accounts are
/// refreshed at the start, and the numbers are within the limits of the settings.
pub proof fn lemma_initial_settings(config: AppConfig)
    requires
        config.is_initial(),
    ensures
        !config.settings.desktop_switch_enabled,
        config.settings.auto_refresh_on_start,
        config.settings.custom_codex_path is None && config.settings.desktop_codex_home is None,
        config.settings.request_timeout_seconds == 20,
        config.settings.stale_after_minutes == 15,
        config.settings.theme == ThemePreference::System,
        config.accounts@.len() == 0 && config.last_active_desktop_account_id is None,
        config.schema_version == 3,
{
}

/// An account keeps its own home exactly if its directory is the one below the root
/// that bears its identifier, however that is written; where one of a list does not,
/// the error names the directory of the first.
pub proof fn lemma_own_home(storage: Storage, account: AccountRecord, accounts: Seq<AccountRecord>)
    ensures
        storage.keeps_own_home(account) <==> same_place(
            storage.style,
            account.state_dir@,
            below(
                storage.style,
                below(storage.style, storage.root@, "accounts"@),
                id_words(account.id),
            ),
        ),
        storage.all_keep_own_home(accounts) <==> forall|i: int|
            0 <= i < accounts.len() ==> storage.keeps_own_home(#[trigger] accounts[i]),
        forall|error: ErrorModel| #[trigger]
            storage.is_first_misplaced(accounts, error) ==> !storage.all_keep_own_home(accounts)
                && error is Storage,
{
}

} // verus!
