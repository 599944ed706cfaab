use std::collections::{HashMap, HashSet};

use base64::engine::general_purpose::URL_SAFE_NO_PAD;
use base64::Engine as _;
use codex_usage_monitor::account::{AccountIdentity, AccountRecord};
use codex_usage_monitor::account_switch::{
    advance_write, assess_replacement, auth_path, check_removal, check_replacement,
    default_global_codex_home, ensure_global_home, ensure_ordinary_directory,
    ensure_supported_global_storage, extract_identity, harden_auth_file, identity_from,
    inspect_global, read_chatgpt_credentials, read_raw_auth_file, recovery_name,
    replace_global_credentials, rollback_global_credentials, temp_path, validate_target, AuthRead,
    CredentialIdentity, CredentialOwner, DesktopCredentialInspection, FileStep, GlobalEvidence,
    HomeEvidence, PathKind, SwitchReceipt, WriteNext, WriteOp,
};
use codex_usage_monitor::error::AppError;
use codex_usage_monitor::ids::{new_id, write_id};
use codex_usage_monitor::json::{read_text, write_bytes, Json};
use codex_usage_monitor::paths::{parent, PathStyle};

const STYLE: PathStyle = PathStyle::Unix;

fn json(text: &str) -> Json {
    read_text(text).unwrap()
}

fn token(claims: &str) -> String {
    let payload = URL_SAFE_NO_PAD.encode(claims);
    format!("e30.{payload}.fixture-signature")
}

fn fixture(account_id: &str, email: &str) -> Vec<u8> {
    let claims = format!(
        "{{\"email\":\"{email}\",\"email_verified\":true,\
         \"https://api.openai.com/auth\":{{\"chatgpt_account_id\":\"{account_id}\"}}}}"
    );
    let value = json(&format!(
        "{{\"auth_mode\":\"chatgpt\",\"tokens\":{{\"account_id\":\"{account_id}\",\
         \"id_token\":\"{}\",\"access_token\":\"fixture-access-token\",\
         \"refresh_token\":\"fixture-refresh-token\"}}}}",
        token(&claims)
    ));
    write_bytes(&value).unwrap()
}

/// Files and directories in memory.
struct Disk {
    files: HashMap<String, Vec<u8>>,
    dirs: HashSet<String>,
    failing: Option<WriteOp>,
}

impl Disk {
    fn new() -> Disk {
        Disk {
            files: HashMap::new(),
            dirs: HashSet::new(),
            failing: None,
        }
    }

    fn add_dir(&mut self, path: &str) {
        let mut next = Some(path.to_owned());
        while let Some(dir) = next {
            next = parent(STYLE, &dir);
            self.dirs.insert(dir);
        }
    }

    fn write(&mut self, path: &str, bytes: &[u8]) {
        self.files.insert(path.to_owned(), bytes.to_vec());
    }

    fn kind(&self, path: &str) -> PathKind {
        if self.files.contains_key(path) {
            PathKind::File
        } else if self.dirs.contains(path) {
            PathKind::Directory
        } else {
            PathKind::Unreadable("not found".to_owned())
        }
    }

    fn read(&self, path: &str) -> AuthRead {
        AuthRead {
            kind: self.kind(path),
            size: self.files.get(path).map_or(0, |bytes| bytes.len() as u64),
            content: self
                .files
                .get(path)
                .cloned()
                .ok_or_else(|| "not found".to_owned()),
        }
    }

    fn home(&self, account: &AccountRecord) -> HomeEvidence {
        HomeEvidence {
            directory: self.kind(&account.state_dir),
            auth: self.read(&auth_path(STYLE, &account.state_dir)),
        }
    }

    fn homes(&self, accounts: &[AccountRecord]) -> Vec<HomeEvidence> {
        accounts.iter().map(|account| self.home(account)).collect()
    }

    fn global(&self, home: &str) -> GlobalEvidence {
        let path = auth_path(STYLE, home);
        let config = self.files.get(&format!("{home}/config.toml"));
        GlobalEvidence {
            config: config.map(|bytes| {
                let text = String::from_utf8(bytes.clone()).unwrap();
                (bytes.len() as u64, text)
            }),
            auth: self.files.contains_key(&path).then_some(self.read(&path)),
        }
    }

    fn inspect(
        &self,
        home: &str,
        accounts: &Vec<AccountRecord>,
    ) -> Result<DesktopCredentialInspection, AppError> {
        inspect_global(
            STYLE,
            home,
            accounts,
            &self.homes(accounts),
            &self.global(home),
        )
    }

    fn perform(
        &mut self,
        op: WriteOp,
        path: &str,
        temp: &str,
        bytes: &[u8],
    ) -> Result<(), String> {
        if self.failing == Some(op) {
            return Err("fault".to_owned());
        }
        match op {
            WriteOp::CreateTemp => {
                let dir = parent(STYLE, temp).unwrap();
                if self.files.contains_key(temp) || !self.dirs.contains(&dir) {
                    return Err("cannot create".to_owned());
                }
                self.write(temp, b"");
            }
            WriteOp::FillTemp => self.write(temp, bytes),
            WriteOp::Rename => {
                if self.dirs.contains(path) {
                    return Err("is a directory".to_owned());
                }
                let moved = self.files.remove(temp).unwrap();
                self.write(path, &moved);
            }
            _ => {}
        }
        Ok(())
    }

    fn replace_with_temp(
        &mut self,
        path: &str,
        temp: &str,
        bytes: &[u8],
    ) -> Result<(), AppError> {
        let mut op = WriteOp::CreateTemp;
        loop {
            let outcome = self.perform(op, path, temp, bytes);
            match advance_write(op, outcome) {
                WriteNext::Do(next) => op = next,
                WriteNext::Finish { clean_up, result } => {
                    if clean_up {
                        self.files.remove(temp);
                    }
                    return result;
                }
            }
        }
    }

    fn step(&mut self, step: FileStep) -> Result<(), AppError> {
        match step {
            FileStep::PrepareDirectory(path) => {
                self.add_dir(&path);
                Ok(())
            }
            FileStep::CreateDirectory(path) => {
                if self.dirs.contains(&path) {
                    return Err(AppError::Io("exists".to_owned()));
                }
                self.add_dir(&path);
                Ok(())
            }
            FileStep::RequireDirectory(path, label) => {
                ensure_ordinary_directory(&self.kind(&path), &path, label)
            }
            FileStep::CopyIfPresent(from, to) => {
                if !self.files.contains_key(&from) {
                    return Ok(());
                }
                let bytes = read_raw_auth_file(&from, &self.read(&from))?;
                self.step(FileStep::Replace(to, bytes))
            }
            FileStep::Replace(path, bytes) => {
                self.add_dir(&parent(STYLE, &path).unwrap());
                let temp = temp_path(STYLE, &path, new_id())?;
                self.replace_with_temp(&path, &temp, &bytes)
            }
            FileStep::RemoveIfPresent(path) => {
                if self.files.contains_key(&path) {
                    check_removal(&self.kind(&path))?;
                    self.files.remove(&path);
                }
                Ok(())
            }
        }
    }

    fn replace(
        &mut self,
        target: &AccountRecord,
        accounts: &Vec<AccountRecord>,
        global_home: &str,
    ) -> Result<SwitchReceipt, AppError> {
        check_replacement(
            STYLE,
            target,
            &self.kind(&target.state_dir),
            accounts,
            global_home,
            &self.global(global_home).config,
        )?;
        self.add_dir(global_home);
        let replacement = assess_replacement(
            STYLE,
            target,
            &self.read(&auth_path(STYLE, &target.state_dir)),
            accounts,
            &self.homes(accounts),
            global_home,
            &self.global(global_home).auth,
        )?;
        let (steps, receipt) = replace_global_credentials(
            STYLE,
            &replacement,
            accounts,
            "/data/recovery",
            &recovery_name("20250101T000000.000Z", 7),
        )?;
        for step in steps {
            self.step(step)?;
        }
        Ok(receipt)
    }
}

fn account(disk: &mut Disk, name: &str, index: u32) -> AccountRecord {
    let id = new_id();
    let state_dir = format!("/data/accounts/{}", write_id(id));
    disk.add_dir(&state_dir);
    AccountRecord {
        id,
        display_name: name.to_owned(),
        state_dir,
        enabled: true,
        order: index,
        last_success: None,
        last_attempt_at: None,
    }
}

fn again(account: &AccountRecord) -> AccountRecord {
    AccountRecord {
        id: account.id,
        display_name: account.display_name.clone(),
        state_dir: account.state_dir.clone(),
        enabled: account.enabled,
        order: account.order,
        last_success: None,
        last_attempt_at: None,
    }
}

#[test]
fn rejects_missing_target_auth() {
    let mut disk = Disk::new();
    let account = account(&mut disk, "A", 0);
    assert!(validate_target(STYLE, &account, &disk.home(&account)).is_err());
}

#[test]
fn credential_identity_requires_stable_id_or_verified_full_email_match() {
    let mut disk = Disk::new();
    let account = account(&mut disk, "A", 0);
    disk.write(
        &auth_path(STYLE, &account.state_dir),
        &fixture("acct-a", "a@example.com"),
    );
    let identity = validate_target(STYLE, &account, &disk.home(&account)).unwrap();
    let matching = AccountIdentity {
        account_id: Some("acct-a".to_owned()),
        email: Some("different@example.com".to_owned()),
        masked_email: None,
        plan_type: None,
    };
    let mismatching = AccountIdentity {
        account_id: Some("acct-b".to_owned()),
        email: Some("a@example.com".to_owned()),
        masked_email: None,
        plan_type: None,
    };
    assert!(identity.matches_account(&matching));
    assert!(!identity.matches_account(&mismatching));
}

#[test]
fn global_missing_is_reported_without_guessing() {
    let disk = Disk::new();
    let inspection = disk.inspect("/user/global", &vec![]).unwrap();
    assert_eq!(inspection.owner, CredentialOwner::Missing);
}

#[test]
fn missing_global_is_created_atomically_and_rollback_restores_absence() {
    let mut disk = Disk::new();
    let target = account(&mut disk, "target", 0);
    let target_bytes = fixture("acct-target", "target@example.com");
    disk.write(&auth_path(STYLE, &target.state_dir), &target_bytes);
    let global = "/user/global";

    let receipt = disk
        .replace(&target, &vec![again(&target)], global)
        .unwrap();
    assert_eq!(receipt.previous_owner, CredentialOwner::Missing);
    assert_eq!(disk.files[&auth_path(STYLE, global)], target_bytes);
    disk.step(rollback_global_credentials(&receipt)).unwrap();
    assert!(!disk.files.contains_key(&auth_path(STYLE, global)));
    assert_eq!(receipt.recovery_path, None);
}

#[test]
fn matches_managed_account_and_ignores_stale_local_marker() {
    let mut disk = Disk::new();
    let first = account(&mut disk, "same name", 0);
    let second = account(&mut disk, "same name", 1);
    disk.write(
        &auth_path(STYLE, &first.state_dir),
        &fixture("acct-a", "a@example.com"),
    );
    disk.write(
        &auth_path(STYLE, &second.state_dir),
        &fixture("acct-b", "b@example.com"),
    );
    let global = "/user/global";
    disk.write(
        &auth_path(STYLE, global),
        &fixture("acct-a", "a@example.com"),
    );

    let id = first.id;
    let inspection = disk.inspect(global, &vec![first, second]).unwrap();
    assert_eq!(inspection.owner, CredentialOwner::Managed(id));
}

#[test]
fn unknown_global_is_backed_up_and_never_written_into_managed_home() {
    let mut disk = Disk::new();
    let target = account(&mut disk, "target", 0);
    let other = account(&mut disk, "other", 1);
    let target_bytes = fixture("acct-target", "target@example.com");
    let other_bytes = fixture("acct-other", "other@example.com");
    disk.write(&auth_path(STYLE, &target.state_dir), &target_bytes);
    disk.write(&auth_path(STYLE, &other.state_dir), &other_bytes);
    let global = "/user/global";
    let unknown = fixture("acct-unknown", "unknown@example.com");
    disk.write(&auth_path(STYLE, global), &unknown);

    let receipt = disk
        .replace(&target, &vec![again(&target), again(&other)], global)
        .unwrap();
    assert_eq!(receipt.previous_owner, CredentialOwner::Unmanaged);
    assert_eq!(disk.files[&auth_path(STYLE, global)], target_bytes);
    assert_eq!(disk.files[&auth_path(STYLE, &other.state_dir)], other_bytes);
    assert_eq!(disk.files[&receipt.recovery_path.unwrap()], unknown);
}

#[test]
fn malformed_global_is_treated_as_unknown_and_backed_up_before_switch() {
    let mut disk = Disk::new();
    let target = account(&mut disk, "target", 0);
    disk.write(
        &auth_path(STYLE, &target.state_dir),
        &fixture("acct-target", "target@example.com"),
    );
    let global = "/user/global";
    let malformed = b"{damaged credential";
    disk.write(&auth_path(STYLE, global), malformed);

    let receipt = disk
        .replace(&target, &vec![again(&target)], global)
        .unwrap();
    assert_eq!(receipt.previous_owner, CredentialOwner::Unmanaged);
    assert_eq!(
        disk.files[receipt.recovery_path.as_ref().unwrap()],
        malformed
    );
    disk.step(rollback_global_credentials(&receipt)).unwrap();
    assert_eq!(disk.files[&auth_path(STYLE, global)], malformed);
}

#[test]
fn explicit_keyring_storage_is_rejected() {
    let mut disk = Disk::new();
    let global = "/user/global";
    disk.write(
        "/user/global/config.toml",
        b"cli_auth_credentials_store = \"keyring\"\n",
    );
    assert!(disk.inspect(global, &vec![]).is_err());
}

#[test]
fn managed_global_is_saved_back_before_replacement() {
    let mut disk = Disk::new();
    let target = account(&mut disk, "target", 0);
    let current = account(&mut disk, "current", 1);
    disk.write(
        &auth_path(STYLE, &target.state_dir),
        &fixture("acct-target", "target@example.com"),
    );
    let old_current = fixture("acct-current", "current@example.com");
    disk.write(&auth_path(STYLE, &current.state_dir), &old_current);
    let global = "/user/global";
    let refreshed_current = fixture("acct-current", "new-current@example.com");
    disk.write(&auth_path(STYLE, global), &refreshed_current);

    disk.replace(&target, &vec![again(&target), again(&current)], global)
        .unwrap();
    assert_eq!(
        disk.files[&auth_path(STYLE, &current.state_dir)],
        refreshed_current
    );
    let saved = format!(
        "/data/recovery/20250101T000000.000Z-00000000-0000-0000-0000-000000000007/managed-{}-previous.json",
        write_id(current.id)
    );
    assert_eq!(disk.files[&saved], old_current);
}

#[test]
fn atomic_replace_succeeds_and_uses_private_permissions() {
    let mut disk = Disk::new();
    disk.add_dir("/d");
    disk.write("/d/auth.json", b"old");
    disk.replace_with_temp("/d/auth.json", "/d/temp", b"new")
        .unwrap();
    assert_eq!(disk.files["/d/auth.json"], b"new");
    assert!(!disk.files.contains_key("/d/temp"));
    assert_eq!(
        advance_write(WriteOp::CreateTemp, Ok(())),
        WriteNext::Do(WriteOp::ProtectTemp)
    );
    assert_eq!(
        advance_write(WriteOp::Rename, Ok(())),
        WriteNext::Do(WriteOp::ProtectTarget)
    );
}

#[test]
fn temp_write_failure_preserves_destination() {
    let mut disk = Disk::new();
    disk.add_dir("/d");
    disk.write("/d/auth.json", b"old");
    assert!(disk
        .replace_with_temp("/d/auth.json", "/d/missing/temp", b"new")
        .is_err());
    assert_eq!(disk.files["/d/auth.json"], b"old");
}

#[test]
fn rename_failure_does_not_replace_destination_target() {
    let mut disk = Disk::new();
    disk.add_dir("/d/auth.json");
    disk.write("/d/auth.json/sentinel", b"old");
    assert!(disk
        .replace_with_temp("/d/auth.json", "/d/temp", b"new")
        .is_err());
    assert_eq!(disk.files["/d/auth.json/sentinel"], b"old");
    assert!(!disk.files.contains_key("/d/temp"));
}

#[test]
fn no_fault_leaves_half_a_file() {
    for (op, expected) in [
        (WriteOp::CreateTemp, b"old"),
        (WriteOp::ProtectTemp, b"old"),
        (WriteOp::FillTemp, b"old"),
        (WriteOp::SyncTemp, b"old"),
        (WriteOp::Rename, b"old"),
        (WriteOp::ProtectTarget, b"new"),
        (WriteOp::SyncParent, b"new"),
    ] {
        let mut disk = Disk::new();
        disk.add_dir("/d");
        disk.write("/d/auth.json", b"old");
        disk.failing = Some(op);
        assert_eq!(
            disk.replace_with_temp("/d/auth.json", "/d/temp", b"new"),
            Err(AppError::Io("fault".to_owned()))
        );
        assert_eq!(&disk.files["/d/auth.json"], expected);
        assert!(!disk.files.contains_key("/d/temp"));
    }
}

#[test]
fn a_replacement_that_stops_early_leaves_the_credentials() {
    let mut disk = Disk::new();
    let target = account(&mut disk, "target", 0);
    disk.write(
        &auth_path(STYLE, &target.state_dir),
        &fixture("acct-target", "target@example.com"),
    );
    let current = fixture("acct-x", "x@example.com");
    disk.write("/user/global/auth.json", &current);
    disk.add_dir("/data/recovery/20250101T000000.000Z-00000000-0000-0000-0000-000000000007");
    assert_eq!(
        disk.replace(&target, &vec![again(&target)], "/user/global"),
        Err(AppError::Io("exists".to_owned()))
    );
    assert_eq!(disk.files["/user/global/auth.json"], current);
}

#[test]
fn homes_of_the_desktop_application_are_absolute_and_their_own() {
    let mut disk = Disk::new();
    let managed = account(&mut disk, "A", 0);
    let home = managed.state_dir.clone();
    let accounts = vec![managed];
    assert!(ensure_global_home(STYLE, "/user/.codex", &accounts).is_ok());
    assert_eq!(
        ensure_global_home(STYLE, "user/.codex", &accounts),
        Err(AppError::DesktopSwitch(
            "全局 Codex Home 必须是绝对路径".to_owned()
        ))
    );
    for same in [home.clone(), format!("{home}/"), format!("/{home}/.")] {
        assert_eq!(
            ensure_global_home(STYLE, &same, &accounts),
            Err(AppError::DesktopSwitch(
                "全局 Codex Home 不能与任何受管账号目录相同".to_owned()
            ))
        );
    }
    assert_eq!(
        default_global_codex_home(STYLE, &Some("/home/me".to_owned())).unwrap(),
        "/home/me/.codex"
    );
    assert_eq!(
        default_global_codex_home(STYLE, &None),
        Err(AppError::Storage(
            "无法确定用户目录中的全局 Codex Home".to_owned()
        ))
    );
}

#[test]
fn system_stores_are_recognised_line_by_line() {
    let judge = |size: u64, text: &str| ensure_supported_global_storage(&Some((size, text.to_owned())));
    assert!(ensure_supported_global_storage(&None).is_ok());
    assert!(judge(10, "model = \"x\"\r\n  CLI_AUTH_credentials_store='Keychain'\r\n").is_err());
    assert!(judge(10, "cli_auth_credentials_store = \"wincred\"").is_err());
    assert!(judge(10, "cli_auth_credentials_store = \"credential_manager\"").is_err());
    assert!(judge(10, "cli_auth_credentials_store = \"file\"\n# keyring").is_ok());
    assert!(judge(10, "# cli_auth_credentials_store = \"keyring\"").is_ok());
    assert!(judge(1_048_577, "cli_auth_credentials_store = \"keyring\"").is_ok());
    assert!(judge(1_048_576, "cli_auth_credentials_store = \"keyring\"").is_err());
}

#[test]
fn owners_are_told_by_identifier_before_address() {
    let id = |account_id: Option<&str>, email: Option<&str>| CredentialIdentity {
        account_id: account_id.map(str::to_owned),
        email: email.map(str::to_owned),
    };
    assert!(id(Some("a"), Some("x@y")).same_account(&id(Some("a"), Some("z@y"))));
    assert!(!id(Some("a"), Some("x@y")).same_account(&id(Some("b"), Some("x@y"))));
    assert!(id(None, Some("X@y")).same_account(&id(Some("b"), Some("x@Y"))));
    assert!(!id(None, None).same_account(&id(None, None)));
    assert!(!id(Some("a"), None).same_account(&id(None, Some("x@y"))));
}

#[test]
fn addresses_count_only_when_verified() {
    let value = |claims: &str| {
        json(&format!(
            "{{\"tokens\":{{\"id_token\":\"{}\"}}}}",
            token(claims)
        ))
    };
    assert_eq!(
        extract_identity(&value(r#"{"email":"a@b","email_verified":false}"#)),
        None
    );
    assert_eq!(extract_identity(&value(r#"{"email":"a@b"}"#)), None);
    assert_eq!(
        extract_identity(&value(r#"{"email":" a@b ","email_verified":true}"#)),
        Some(CredentialIdentity {
            account_id: None,
            email: Some("a@b".to_owned()),
        })
    );
    assert_eq!(
        extract_identity(&value(r#"{"chatgpt_account_id":"c"}"#)).unwrap().account_id.as_deref(),
        Some("c")
    );
    assert_eq!(
        extract_identity(&value(r#"{"account_id":5,"chatgpt_account_id":"c"}"#))
            .unwrap()
            .account_id
            .as_deref(),
        Some("c")
    );
    assert_eq!(extract_identity(&json(r#"{"tokens":{}}"#)), None);
    assert_eq!(extract_identity(&json(r#"{"account_id":"top"}"#)), None);
    assert_eq!(
        extract_identity(&json(r#"{"account_id":"top","tokens":{"id_token":"no.!!.x"}}"#))
            .unwrap()
            .account_id
            .as_deref(),
        Some("top")
    );
    assert_eq!(
        identity_from(
            &json(r#"{"tokens":{"account_id":"  "}}"#),
            &Some(json(r#"{"account_id":"claimed"}"#))
        )
        .unwrap()
        .account_id
        .as_deref(),
        Some("claimed")
    );
}

#[test]
fn unreadable_credentials_are_refused_with_their_reason() {
    let read = |kind: PathKind, size: u64, content: Result<Vec<u8>, String>| AuthRead {
        kind,
        size,
        content,
    };
    let refused = |attempt: AuthRead| match read_chatgpt_credentials("/a", &attempt) {
        Err(AppError::Storage(detail)) => detail,
        other => panic!("unexpected {other:?}"),
    };
    assert_eq!(
        refused(read(PathKind::Unreadable("gone".to_owned()), 0, Err(String::new()))),
        "无法读取凭据文件 /a：gone"
    );
    assert_eq!(
        refused(read(PathKind::Other, 0, Ok(vec![]))),
        "凭据路径不是普通文件：/a"
    );
    assert_eq!(
        refused(read(PathKind::Directory, 0, Ok(vec![]))),
        "凭据路径不是普通文件：/a"
    );
    assert_eq!(
        refused(read(PathKind::File, 1_048_577, Ok(vec![]))),
        "凭据文件大小异常：/a"
    );
    assert_eq!(
        refused(read(PathKind::File, 1, Ok(b"{".to_vec()))),
        "凭据文件不是有效 JSON：/a"
    );
    assert_eq!(
        refused(read(PathKind::File, 1, Ok(b"{\"auth_mode\":\"apikey\"}".to_vec()))),
        "仅支持已完成 ChatGPT OAuth 的文件型凭据：/a"
    );
    assert_eq!(
        refused(read(PathKind::File, 1, Ok(b"{\"auth_mode\":\"chatgpt\"}".to_vec()))),
        "无法从凭据中提取稳定账号 ID 或经过验证的完整邮箱：/a"
    );
    assert_eq!(
        read_chatgpt_credentials("/a", &read(PathKind::File, 1, Err("io".to_owned()))),
        Err(AppError::Io("io".to_owned()))
    );
}

#[test]
fn an_owner_in_two_homes_is_ambiguous() {
    let mut disk = Disk::new();
    let first = account(&mut disk, "A", 0);
    let second = account(&mut disk, "B", 1);
    let bytes = fixture("acct-a", "a@example.com");
    disk.write(&auth_path(STYLE, &first.state_dir), &bytes);
    disk.write(&auth_path(STYLE, &second.state_dir), &bytes);
    disk.write("/user/global/auth.json", &bytes);
    let accounts = vec![first, second];
    let inspection = disk.inspect("/user/global", &accounts).unwrap();
    assert_eq!(inspection.owner, CredentialOwner::Ambiguous);
    assert_eq!(
        inspection.identity.unwrap().email.as_deref(),
        Some("a@example.com")
    );
}

#[test]
fn the_order_and_the_names_of_accounts_tell_no_owner() {
    let mut disk = Disk::new();
    let first = account(&mut disk, "A", 0);
    let second = account(&mut disk, "B", 1);
    let id = second.id;
    disk.write(
        &auth_path(STYLE, &first.state_dir),
        &fixture("acct-a", "a@example.com"),
    );
    let bytes = fixture("acct-b", "b@example.com");
    disk.write(&auth_path(STYLE, &second.state_dir), &bytes);
    disk.write("/user/global/auth.json", &bytes);
    let mut accounts = vec![first, second];
    let before = disk.inspect("/user/global", &accounts).unwrap();
    assert_eq!(before.owner, CredentialOwner::Managed(id));
    accounts.reverse();
    accounts[0].display_name = "A".to_owned();
    accounts[0].enabled = false;
    accounts[1].order = 9;
    let after = disk.inspect("/user/global", &accounts).unwrap();
    assert_eq!(after.owner, before.owner);
}

#[test]
fn a_vanished_owner_stops_the_replacement() {
    let mut disk = Disk::new();
    let target = account(&mut disk, "target", 0);
    disk.write(
        &auth_path(STYLE, &target.state_dir),
        &fixture("acct-t", "t@example.com"),
    );
    disk.write("/user/global/auth.json", &fixture("acct-t", "t@example.com"));
    let accounts = vec![again(&target)];
    let replacement = assess_replacement(
        STYLE,
        &target,
        &disk.read(&auth_path(STYLE, &target.state_dir)),
        &accounts,
        &disk.homes(&accounts),
        "/user/global",
        &disk.global("/user/global").auth,
    )
    .unwrap();
    assert_eq!(
        replacement.previous_owner,
        CredentialOwner::Managed(target.id)
    );
    assert_eq!(
        replace_global_credentials(STYLE, &replacement, &vec![], "/r", "n"),
        Err(AppError::Storage("已匹配账号在配置中消失".to_owned()))
    );
}

#[test]
fn only_files_are_restricted_or_removed() {
    assert!(harden_auth_file("/a", &PathKind::File).is_ok());
    assert_eq!(
        harden_auth_file("/a", &PathKind::Other),
        Err(AppError::Storage("凭据路径不是普通文件：/a".to_owned()))
    );
    assert_eq!(
        harden_auth_file("/a", &PathKind::Unreadable("gone".to_owned())),
        Err(AppError::Io("gone".to_owned()))
    );
    assert!(check_removal(&PathKind::File).is_ok());
    assert_eq!(
        check_removal(&PathKind::Directory),
        Err(AppError::Storage("拒绝回滚非普通全局凭据文件".to_owned()))
    );
    assert_eq!(
        check_removal(&PathKind::Unreadable("gone".to_owned())),
        Err(AppError::Io("gone".to_owned()))
    );
    assert_eq!(
        ensure_ordinary_directory(&PathKind::File, "/d", "目录"),
        Err(AppError::Storage("目录不是普通目录：/d".to_owned()))
    );
    assert_eq!(
        ensure_ordinary_directory(&PathKind::Unreadable("gone".to_owned()), "/d", "目录"),
        Err(AppError::Storage("目录不存在或无法读取 /d：gone".to_owned()))
    );
}

#[test]
fn temporary_files_stand_beside_their_target() {
    assert_eq!(
        temp_path(STYLE, "/a/auth.json", 1).unwrap(),
        "/a/.auth-switch-00000000-0000-0000-0000-000000000001.tmp"
    );
    assert_eq!(
        temp_path(STYLE, "/", 1),
        Err(AppError::Storage("凭据路径没有父目录".to_owned()))
    );
    assert_eq!(
        temp_path(PathStyle::Windows, "C:\\a\\auth.json", 2).unwrap(),
        "C:\\a\\.auth-switch-00000000-0000-0000-0000-000000000002.tmp"
    );
}
