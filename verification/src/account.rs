//! Accounts: what is kept of them and what is shown while they are worked on.

use vstd::prelude::*;

use crate::rate_limits::QuotaSnapshot;
use crate::text::text_of;
use crate::time::Timestamp;

verus! {

/// Who an account belongs to. A masked address is only kept from older caches
/// and stands for no full one.
#[derive(Debug, PartialEq, Eq)]
pub struct AccountIdentity {
    pub account_id: Option<String>,
    pub email: Option<String>,
    pub masked_email: Option<String>,
    pub plan_type: Option<String>,
}

/// What an identity says.
#[verifier::ext_equal]
pub struct IdentityModel {
    pub account_id: Option<Seq<char>>,
    pub email: Option<Seq<char>>,
    pub masked_email: Option<Seq<char>>,
    pub plan_type: Option<Seq<char>>,
}

/// A copy of an optional text.
pub fn copy_text(value: &Option<String>) -> (r: Option<String>)
    ensures
        r == *value,
{
    match value {
        Some(s) => Some(s.clone()),
        None => None,
    }
}

impl AccountIdentity {
    /// What the identity says.
    pub open spec fn view(self) -> IdentityModel {
        IdentityModel {
            account_id: text_of(self.account_id),
            email: text_of(self.email),
            masked_email: text_of(self.masked_email),
            plan_type: text_of(self.plan_type),
        }
    }

    /// The same identity.
    pub fn copy(&self) -> (r: AccountIdentity)
        ensures
            r == *self,
    {
        AccountIdentity {
            account_id: copy_text(&self.account_id),
            email: copy_text(&self.email),
            masked_email: copy_text(&self.masked_email),
            plan_type: copy_text(&self.plan_type),
        }
    }
}

/// What the last successful query of an account gave.
#[derive(Debug, PartialEq, Eq)]
pub struct CachedAccountData {
    pub identity: AccountIdentity,
    pub quota: QuotaSnapshot,
}

/// An account as the configuration keeps it.
#[derive(Debug, PartialEq, Eq)]
pub struct AccountRecord {
    pub id: u128,
    pub display_name: String,
    pub state_dir: String,
    pub enabled: bool,
    pub order: u32,
    pub last_success: Option<CachedAccountData>,
    pub last_attempt_at: Option<Timestamp>,
}

/// What an account is doing, or how its last operation ended.
#[derive(Debug, Clone, Copy, PartialEq, Eq)]
pub enum AccountStatus {
    Idle,
    Querying(&'static str),
    Success,
    NotLoggedIn,
    CodexUnavailable,
    TimedOut,
    ProtocolIncompatible,
    Failed,
}

impl AccountStatus {
    /// The status in words.
    pub open spec fn words(self) -> Seq<char> {
        match self {
            AccountStatus::Idle => "○ 等待查询"@,
            AccountStatus::Querying(step) => step@,
            AccountStatus::Success => "✓ 查询成功"@,
            AccountStatus::NotLoggedIn => "⚠ 未登录"@,
            AccountStatus::CodexUnavailable => "⚠ Codex 不可用"@,
            AccountStatus::TimedOut => "⚠ 请求超时"@,
            AccountStatus::ProtocolIncompatible => "⚠ 协议不兼容"@,
            AccountStatus::Failed => "⚠ 查询失败"@,
        }
    }

    /// The status in words.
    pub fn label(&self) -> (r: &str)
        ensures
            r@ == self.words(),
    {
        match self {
            AccountStatus::Idle => "○ 等待查询",
            AccountStatus::Querying(step) => step,
            AccountStatus::Success => "✓ 查询成功",
            AccountStatus::NotLoggedIn => "⚠ 未登录",
            AccountStatus::CodexUnavailable => "⚠ Codex 不可用",
            AccountStatus::TimedOut => "⚠ 请求超时",
            AccountStatus::ProtocolIncompatible => "⚠ 协议不兼容",
            AccountStatus::Failed => "⚠ 查询失败",
        }
    }
}

/// Where a login continues: an address of the official site, and a code to
/// enter there for a login by device code.
#[derive(Debug, PartialEq, Eq)]
pub struct LoginChallenge {
    pub login_id: String,
    pub url: String,
    pub user_code: Option<String>,
    pub device_code: bool,
}

impl LoginChallenge {
    /// The same challenge.
    pub fn copy(&self) -> (r: LoginChallenge)
        ensures
            r == *self,
    {
        LoginChallenge {
            login_id: self.login_id.clone(),
            url: self.url.clone(),
            user_code: copy_text(&self.user_code),
            device_code: self.device_code,
        }
    }
}

/// What is known of an account while the application runs.
#[derive(Debug, PartialEq, Eq)]
pub struct AccountRuntime {
    pub status: AccountStatus,
    pub error_summary: Option<String>,
    pub diagnostic: Option<String>,
    pub login_challenge: Option<LoginChallenge>,
}

/// What is known of an account while the application runs, with texts as such.
#[verifier::ext_equal]
pub struct RuntimeModel {
    pub status: AccountStatus,
    pub error_summary: Option<Seq<char>>,
    pub diagnostic: Option<Seq<char>>,
    pub login_challenge: Option<LoginChallenge>,
}

impl RuntimeModel {
    /// An account that nothing was done with.
    pub open spec fn fresh() -> RuntimeModel {
        RuntimeModel {
            status: AccountStatus::Idle,
            error_summary: None,
            diagnostic: None,
            login_challenge: None,
        }
    }
}

impl AccountRuntime {
    /// What is known, with texts as such.
    pub open spec fn view(self) -> RuntimeModel {
        RuntimeModel {
            status: self.status,
            error_summary: text_of(self.error_summary),
            diagnostic: text_of(self.diagnostic),
            login_challenge: self.login_challenge,
        }
    }

    /// The same knowledge.
    pub fn copy(&self) -> (r: AccountRuntime)
        ensures
            r == *self,
    {
        AccountRuntime {
            status: self.status,
            error_summary: copy_text(&self.error_summary),
            diagnostic: copy_text(&self.diagnostic),
            login_challenge: match &self.login_challenge {
                Some(challenge) => Some(challenge.copy()),
                None => None,
            },
        }
    }

    /// An account that nothing was done with.
    pub open spec fn fresh() -> AccountRuntime {
        AccountRuntime {
            status: AccountStatus::Idle,
            error_summary: None,
            diagnostic: None,
            login_challenge: None,
        }
    }
}

impl Default for AccountRuntime {
    fn default() -> (r: AccountRuntime)
        ensures
            r == AccountRuntime::fresh(),
    {
        AccountRuntime {
            status: AccountStatus::Idle,
            error_summary: None,
            diagnostic: None,
            login_challenge: None,
        }
    }
}

/// The place of the first account with an identifier.
pub open spec fn place_of(accounts: Seq<AccountRecord>, id: u128) -> Option<int>
    decreases accounts.len(),
{
    if accounts.len() == 0 {
        None
    } else {
        match place_of(accounts.drop_last(), id) {
            Some(i) => Some(i),
            None => if accounts.last().id == id {
                Some(accounts.len() - 1)
            } else {
                None
            },
        }
    }
}

/// A place that was found is the first one with the identifier.
pub proof fn lemma_place_of(accounts: Seq<AccountRecord>, id: u128)
    ensures
        match place_of(accounts, id) {
            Some(i) => 0 <= i < accounts.len() && accounts[i].id == id && (forall|j: int|
                0 <= j < i ==> (#[trigger] accounts[j]).id != id),
            None => forall|j: int| 0 <= j < accounts.len() ==> (#[trigger] accounts[j]).id != id,
        },
    decreases accounts.len(),
{
    if accounts.len() > 0 {
        let before = accounts.drop_last();
        lemma_place_of(before, id);
        match place_of(before, id) {
            Some(i) => {
                assert forall|j: int| 0 <= j < i implies (#[trigger] accounts[j]).id != id by {
                    assert(before[j].id != id);
                }
            },
            None => {
                assert forall|j: int| 0 <= j < before.len() implies (#[trigger] accounts[j]).id
                    != id by {
                    assert(before[j].id != id);
                }
            },
        }
    }
}

/// Finds the first account with an identifier.
pub fn find_account(accounts: &Vec<AccountRecord>, id: u128) -> (r: Option<usize>)
    ensures
        match r {
            Some(i) => place_of(accounts@, id) == Some(i as int) && i < accounts@.len()
                && accounts@[i as int].id == id,
            None => place_of(accounts@, id) is None,
        },
{
    let mut i: usize = 0;
    assert(accounts@.take(0) =~= Seq::empty());
    while i < accounts.len()
        invariant
            i <= accounts@.len(),
            place_of(accounts@.take(i as int), id) is None,
        decreases accounts@.len() - i,
    {
        assert(accounts@.take(i + 1).drop_last() =~= accounts@.take(i as int));
        if accounts[i].id == id {
            proof {
                lemma_place_of(accounts@, id);
                lemma_place_of(accounts@.take(i as int), id);
                match place_of(accounts@, id) {
                    Some(k) => {
                        if k < i {
                            assert(accounts@.take(i as int)[k].id != id);
                        }
                    },
                    None => {},
                }
            }
            return Some(i);
        }
        i = i + 1;
    }
    assert(accounts@.take(i as int) =~= accounts@);
    None
}

/// A status that the work has itself tells its step, failures bear a warning, and no
/// two of them are told alike.
pub proof fn lemma_statuses_are_told_apart(step: &'static str)
    ensures
        AccountStatus::Querying(step).words() == step@,
        AccountStatus::Idle.words()[0] == '○',
        AccountStatus::Success.words()[0] == '✓',
        AccountStatus::NotLoggedIn.words()[0] == '⚠',
        AccountStatus::CodexUnavailable.words()[0] == '⚠',
        AccountStatus::TimedOut.words()[0] == '⚠',
        AccountStatus::ProtocolIncompatible.words()[0] == '⚠',
        AccountStatus::Failed.words()[0] == '⚠',
        ({
            let told = seq![
                AccountStatus::NotLoggedIn.words(),
                AccountStatus::CodexUnavailable.words(),
                AccountStatus::TimedOut.words(),
                AccountStatus::ProtocolIncompatible.words(),
                AccountStatus::Failed.words(),
            ];
            forall|i: int, j: int| 0 <= i < j < told.len() ==> #[trigger] told[i] != #[trigger] told[j]
        }),
{
    reveal_strlit("○ 等待查询");
    reveal_strlit("✓ 查询成功");
    reveal_strlit("⚠ 未登录");
    reveal_strlit("⚠ Codex 不可用");
    reveal_strlit("⚠ 请求超时");
    reveal_strlit("⚠ 协议不兼容");
    reveal_strlit("⚠ 查询失败");
    assert(AccountStatus::NotLoggedIn.words()[2] == '未');
    assert(AccountStatus::CodexUnavailable.words()[2] == 'C');
    assert(AccountStatus::TimedOut.words()[2] == '请');
    assert(AccountStatus::ProtocolIncompatible.words()[2] == '协');
    assert(AccountStatus::Failed.words()[2] == '查');
}

} // verus!
