//! Work on accounts: what may run at a time, and how each piece of work goes on.

use vstd::prelude::*;

use crate::account::{copy_text, AccountIdentity, AccountRecord, CachedAccountData, LoginChallenge};
use crate::account_switch::{
    agree, CredentialIdentity, CredentialOwner, DesktopCredentialInspection, SwitchReceipt,
};
use crate::codex_locator::CodexInstallation;
use crate::desktop_host::HostShutdown;
use crate::error::{AppError, ErrorModel};
use crate::ids::{id_words, write_id, NIL};
use crate::logging::redacted;
use crate::text::{ends, holds, join_texts, joined, stands_at, text_of, texts};

verus! {

/// A piece of work.
#[derive(Debug, Clone, Copy, PartialEq, Eq, Structural)]
pub enum OperationKind {
    Query,
    Login,
    Logout,
    SwitchDesktopAccount,
    InspectDesktopAccount,
}

/// What kind of failure it was.
#[derive(Debug, Clone, Copy, PartialEq, Eq, Structural)]
pub enum FailureCategory {
    Cancelled,
    NotLoggedIn,
    TimedOut,
    CodexUnavailable,
    ProtocolIncompatible,
    Other,
}

/// A failure as it is shown.
#[derive(Debug, PartialEq, Eq)]
pub struct WorkerFailure {
    pub summary: String,
    pub diagnostic: String,
    pub category: FailureCategory,
}

/// What kind of failure an error is.
pub open spec fn category_of(error: ErrorModel) -> FailureCategory {
    match error {
        ErrorModel::Cancelled => FailureCategory::Cancelled,
        ErrorModel::NotLoggedIn => FailureCategory::NotLoggedIn,
        ErrorModel::Timeout(_) => FailureCategory::TimedOut,
        ErrorModel::CodexUnavailable(_) => FailureCategory::CodexUnavailable,
        ErrorModel::ProtocolIncompatible(_) => FailureCategory::ProtocolIncompatible,
        _ => FailureCategory::Other,
    }
}

impl WorkerFailure {
    /// Whether this is how an error is shown.
    pub open spec fn shows(self, error: ErrorModel) -> bool {
        &&& self.summary@ == error.summary()
        &&& self.diagnostic@ == error.diagnosis()
        &&& self.category == category_of(error)
    }

    /// How an error is shown.
    pub fn from_error(error: &AppError) -> (r: WorkerFailure)
        ensures
            r.shows(error@),
    {
        let category = match error {
            AppError::Cancelled => FailureCategory::Cancelled,
            AppError::NotLoggedIn => FailureCategory::NotLoggedIn,
            AppError::Timeout(_) => FailureCategory::TimedOut,
            AppError::CodexUnavailable(_) => FailureCategory::CodexUnavailable,
            AppError::ProtocolIncompatible(_) => FailureCategory::ProtocolIncompatible,
            _ => FailureCategory::Other,
        };
        WorkerFailure {
            summary: error.user_message().to_owned(),
            diagnostic: error.diagnostic(),
            category,
        }
    }
}

/// What the log says of a failure.
pub fn failure_log(account_id: u128, failure: &WorkerFailure) -> (r: String)
    ensures
        r@ == "账号 "@ + id_words(account_id) + " 操作失败："@ + failure.diagnostic@,
{
    let mut out = "账号 ".to_owned();
    out.append(write_id(account_id).as_str());
    out.append(" 操作失败：");
    out.append(failure.diagnostic.as_str());
    out
}

/// What work reports.
#[derive(Debug, PartialEq, Eq)]
pub enum WorkerEvent {
    CodexDetected(Result<CodexInstallation, WorkerFailure>),
    Started { account_id: u128, operation: OperationKind, step: &'static str },
    Step { account_id: u128, step: &'static str },
    LoginChallenge { account_id: u128, challenge: LoginChallenge },
    BrowserOpenFailed { account_id: u128, detail: String },
    QueryFinished { account_id: u128, data: CachedAccountData },
    LoginFinished { account_id: u128, data: CachedAccountData },
    LogoutFinished { account_id: u128 },
    DesktopInspected {
        inspection: DesktopCredentialInspection,
        verified_identity: Option<AccountIdentity>,
    },
    DesktopSwitchFinished {
        account_id: u128,
        identity: AccountIdentity,
        recovery_path: Option<String>,
        already_active: bool,
        warning: Option<String>,
    },
    Failed { account_id: u128, operation: OperationKind, failure: WorkerFailure },
}

/// Work on the desktop application.
#[derive(Debug, Clone, Copy, PartialEq, Eq, Structural)]
pub enum DesktopOperation {
    Inspect,
    Switch(u128),
}

/// What work is going on.
#[derive(Debug, PartialEq, Eq)]
pub struct WorkerManager {
    pub active: Vec<u128>,
    pub codex_detection_active: bool,
    pub desktop_operation: Option<DesktopOperation>,
}

/// A list of identifiers without one of them.
pub open spec fn without(ids: Seq<u128>, id: u128) -> Seq<u128>
    decreases ids.len(),
{
    if ids.len() == 0 {
        Seq::empty()
    } else {
        let before = without(ids.drop_last(), id);
        if ids.last() == id {
            before
        } else {
            before.push(ids.last())
        }
    }
}

/// Taking an identifier out leaves all others and it no more.
pub proof fn lemma_without(ids: Seq<u128>, id: u128, other: u128)
    ensures
        without(ids, id).contains(other) <==> ids.contains(other) && other != id,
    decreases ids.len(),
{
    if ids.len() > 0 {
        let front = ids.drop_last();
        let before = without(front, id);
        lemma_without(front, id, other);
        if ids.contains(other) && other != id {
            let i = choose|i: int| 0 <= i < ids.len() && ids[i] == other;
            if i < front.len() {
                assert(front[i] == other);
                let k = choose|k: int| 0 <= k < before.len() && before[k] == other;
                assert(without(ids, id)[k] == other);
            } else {
                assert(without(ids, id)[before.len() as int] == other);
            }
        }
        if without(ids, id).contains(other) {
            let k = choose|k: int|
                0 <= k < without(ids, id).len() && without(ids, id)[k] == other;
            if k < before.len() {
                assert(before[k] == other);
                let i = choose|i: int| 0 <= i < front.len() && front[i] == other;
                assert(ids[i] == other);
            } else {
                assert(ids[ids.len() - 1] == other);
            }
        }
    }
}

proof fn lemma_without_shortens(ids: Seq<u128>, id: u128)
    ensures
        without(ids, id).len() <= ids.len(),
    decreases ids.len(),
{
    if ids.len() > 0 {
        lemma_without_shortens(ids.drop_last(), id);
    }
}

fn remove_id(ids: &mut Vec<u128>, id: u128)
    ensures
        final(ids)@ == without(old(ids)@, id),
{
    let mut out: Vec<u128> = Vec::new();
    let mut i: usize = 0;
    let ghost all = ids@;
    assert(all.take(0) =~= Seq::empty());
    while i < ids.len()
        invariant
            ids@ == all,
            all == old(ids)@,
            i <= all.len(),
            out@ == without(all.take(i as int), id),
        decreases all.len() - i,
    {
        assert(all.take(i + 1).drop_last() =~= all.take(i as int));
        if ids[i] != id {
            out.push(ids[i]);
        }
        i = i + 1;
    }
    assert(all.take(i as int) =~= all);
    *ids = out;
}

/// The places of the accounts that take part when all are refreshed.
pub open spec fn enabled_places(accounts: Seq<AccountRecord>) -> Seq<int>
    decreases accounts.len(),
{
    if accounts.len() == 0 {
        Seq::empty()
    } else {
        let before = enabled_places(accounts.drop_last());
        if accounts.last().enabled {
            before.push(accounts.len() - 1)
        } else {
            before
        }
    }
}

/// An account takes part in a refresh of all exactly if it is enabled, however
/// many there are, and the accounts come one after the other in their order, none
/// twice.
pub proof fn lemma_enabled_accounts_are_refreshed(accounts: Seq<AccountRecord>)
    ensures
        forall|i: int|
            0 <= i < accounts.len() ==> (enabled_places(accounts).contains(i) <==> (
            #[trigger] accounts[i]).enabled),
        forall|k: int|
            0 <= k < enabled_places(accounts).len() ==> 0 <= #[trigger] enabled_places(accounts)[k]
                < accounts.len(),
        forall|j: int, k: int|
            0 <= j < k < enabled_places(accounts).len() ==> #[trigger] enabled_places(accounts)[j]
                < #[trigger] enabled_places(accounts)[k],
    decreases accounts.len(),
{
    if accounts.len() > 0 {
        let front = accounts.drop_last();
        let n = accounts.len() - 1;
        let before = enabled_places(front);
        let all = enabled_places(accounts);
        lemma_enabled_accounts_are_refreshed(front);
        assert forall|i: int| 0 <= i < accounts.len() implies (all.contains(i) <==> (
        #[trigger] accounts[i]).enabled) by {
            if i < n {
                assert(front[i] == accounts[i]);
                assert(before.contains(i) <==> front[i].enabled);
                if before.contains(i) {
                    let k = choose|k: int| 0 <= k < before.len() && before[k] == i;
                    assert(all[k] == i);
                }
                if all.contains(i) {
                    let k = choose|k: int| 0 <= k < all.len() && all[k] == i;
                    assert(before[k] == i);
                }
            } else {
                if accounts[i].enabled {
                    assert(all[before.len() as int] == i);
                } else if all.contains(i) {
                    let k = choose|k: int| 0 <= k < all.len() && all[k] == i;
                    assert(before[k] == i);
                }
            }
        }
    }
}

/// The account that an event ends work on.
pub open spec fn ended_account(event: WorkerEvent) -> Option<u128> {
    match event {
        WorkerEvent::QueryFinished { account_id, data } => Some(account_id),
        WorkerEvent::LoginFinished { account_id, data } => Some(account_id),
        WorkerEvent::LogoutFinished { account_id } => Some(account_id),
        WorkerEvent::Failed { account_id, operation, failure } => Some(account_id),
        _ => None,
    }
}

/// Whether an event ends work on the desktop application.
pub open spec fn ends_desktop_work(event: WorkerEvent) -> bool {
    match event {
        WorkerEvent::DesktopInspected { inspection, verified_identity } => true,
        WorkerEvent::DesktopSwitchFinished {
            account_id,
            identity,
            recovery_path,
            already_active,
            warning,
        } => true,
        WorkerEvent::Failed { account_id, operation, failure } => operation
            == OperationKind::SwitchDesktopAccount || operation
            == OperationKind::InspectDesktopAccount,
        _ => false,
    }
}

impl WorkerManager {
    /// No work is going on.
    pub fn new() -> (r: WorkerManager)
        ensures
            !r.is_busy(),
            is_exclusive(r),
            r.active@.len() == 0,
            !r.codex_detection_active,
            r.desktop_operation is None,
    {
        WorkerManager { active: Vec::new(), codex_detection_active: false, desktop_operation: None }
    }

    /// Whether any work on an account or on the desktop application is going on.
    pub open spec fn is_busy(self) -> bool {
        self.active@.len() > 0 || self.desktop_operation is Some
    }

    /// Whether any work on an account or on the desktop application is going on.
    pub fn any_active(&self) -> (r: bool)
        ensures
            r == self.is_busy(),
    {
        self.active.len() > 0 || self.desktop_operation.is_some()
    }

    /// Whether work on an account is going on.
    pub fn is_active(&self, account_id: u128) -> (r: bool)
        ensures
            r == self.active@.contains(account_id),
    {
        let mut i: usize = 0;
        while i < self.active.len()
            invariant
                i <= self.active@.len(),
                forall|j: int| 0 <= j < i ==> self.active@[j] != account_id,
            decreases self.active@.len() - i,
        {
            if self.active[i] == account_id {
                return true;
            }
            i = i + 1;
        }
        false
    }

    /// Whether a switch of the desktop application is going on.
    pub open spec fn is_switching(self) -> bool {
        self.desktop_operation matches Some(DesktopOperation::Switch(_))
    }

    /// Whether a switch of the desktop application is going on.
    pub fn desktop_switch_active(&self) -> (r: bool)
        ensures
            r == self.is_switching(),
    {
        match self.desktop_operation {
            Some(DesktopOperation::Switch(_)) => true,
            _ => false,
        }
    }

    /// Admits a search for the program of the service, unless one is going on.
    pub fn detect_codex(&mut self) -> (r: bool)
        ensures
            r == !old(self).codex_detection_active,
            final(self).codex_detection_active,
            final(self).active == old(self).active,
            final(self).desktop_operation == old(self).desktop_operation,
            is_exclusive(*old(self)) ==> is_exclusive(*final(self)),
    {
        let free = !self.codex_detection_active;
        self.codex_detection_active = true;
        free
    }

    /// Admits work on one account, if no other work is going on.
    pub fn reserve(&mut self, account_id: u128) -> (r: bool)
        ensures
            r == !old(self).is_busy(),
            final(self).active@ == (if r {
                seq![account_id]
            } else {
                old(self).active@
            }),
            final(self).codex_detection_active == old(self).codex_detection_active,
            final(self).desktop_operation == old(self).desktop_operation,
            is_exclusive(*old(self)) ==> is_exclusive(*final(self)),
    {
        if self.any_active() {
            return false;
        }
        self.active.push(account_id);
        assert(self.active@ =~= seq![account_id]);
        true
    }

    /// Admits a refresh of all enabled accounts, if no other work is going on;
    /// gives their places, in order.
    pub fn refresh_all(&mut self, accounts: &Vec<AccountRecord>) -> (r: Vec<usize>)
        ensures
            !old(self).is_busy() ==> forall|i: int|
                0 <= i < accounts@.len() ==> (r@.contains(i as usize) <==> (
                #[trigger] accounts@[i]).enabled),
            forall|j: int, k: int| 0 <= j < k < r@.len() ==> #[trigger] r@[j] < #[trigger] r@[k],
            if old(self).is_busy() {
                r@.len() == 0 && *final(self) == *old(self)
            } else {
                &&& r@.len() == enabled_places(accounts@).len()
                &&& forall|k: int|
                    0 <= k < r@.len() ==> (#[trigger] r@[k]) == enabled_places(accounts@)[k] && r@[k]
                        < accounts@.len()
                &&& final(self).active@.len() == r@.len()
                &&& forall|k: int|
                    0 <= k < r@.len() ==> (#[trigger] final(self).active@[k])
                        == accounts@[r@[k] as int].id
                &&& final(self).codex_detection_active == old(self).codex_detection_active
                &&& final(self).desktop_operation == old(self).desktop_operation
            },
            is_exclusive(*old(self)) ==> is_exclusive(*final(self)),
    {
        let mut places: Vec<usize> = Vec::new();
        if self.any_active() {
            return places;
        }
        let mut i: usize = 0;
        assert(accounts@.take(0) =~= Seq::empty());
        while i < accounts.len()
            invariant
                i <= accounts@.len(),
                !old(self).is_busy(),
                self.codex_detection_active == old(self).codex_detection_active,
                self.desktop_operation == old(self).desktop_operation,
                places@.len() == enabled_places(accounts@.take(i as int)).len(),
                forall|k: int|
                    0 <= k < places@.len() ==> (#[trigger] places@[k]) == enabled_places(
                        accounts@.take(i as int),
                    )[k] && places@[k] < i,
                self.active@.len() == places@.len(),
                forall|k: int|
                    0 <= k < places@.len() ==> (#[trigger] self.active@[k])
                        == accounts@[places@[k] as int].id,
            decreases accounts@.len() - i,
        {
            let ghost before = enabled_places(accounts@.take(i as int));
            assert(accounts@.take(i + 1).drop_last() =~= accounts@.take(i as int));
            if accounts[i].enabled {
                places.push(i);
                self.active.push(accounts[i].id);
                assert(enabled_places(accounts@.take(i + 1)) == before.push(i as int));
            }
            i = i + 1;
        }
        assert(accounts@.take(i as int) =~= accounts@);
        proof {
            let wanted = enabled_places(accounts@);
            lemma_enabled_accounts_are_refreshed(accounts@);
            assert forall|k: int| 0 <= k < accounts@.len() implies (places@.contains(k as usize)
                <==> (#[trigger] accounts@[k]).enabled) by {
                if places@.contains(k as usize) {
                    let at = choose|at: int| 0 <= at < places@.len() && places@[at] == k as usize;
                    assert(wanted[at] == k);
                }
                if wanted.contains(k) {
                    let at = choose|at: int| 0 <= at < wanted.len() && wanted[at] == k;
                    assert(places@[at] == k as usize);
                }
            }
        }
        places
    }

    /// Admits work on the desktop application, if no other work is going on.
    pub fn reserve_desktop_operation(&mut self, operation: DesktopOperation) -> (r: bool)
        ensures
            r == !old(self).is_busy(),
            final(self).active == old(self).active,
            final(self).codex_detection_active == old(self).codex_detection_active,
            final(self).desktop_operation == (if r {
                Some(operation)
            } else {
                old(self).desktop_operation
            }),
            is_exclusive(*old(self)) ==> is_exclusive(*final(self)),
    {
        if self.any_active() {
            return false;
        }
        self.desktop_operation = Some(operation);
        true
    }

    /// Notes what an event ends.
    pub fn settle(&mut self, event: &WorkerEvent)
        ensures
            final(self).active@ == (match ended_account(*event) {
                Some(id) => without(old(self).active@, id),
                None => old(self).active@,
            }),
            final(self).codex_detection_active == (old(self).codex_detection_active && !(
            *event is CodexDetected)),
            final(self).desktop_operation == (if ends_desktop_work(*event) {
                None
            } else {
                old(self).desktop_operation
            }),
            is_exclusive(*old(self)) ==> is_exclusive(*final(self)),
    {
        proof {
            if let Some(id) = ended_account(*event) {
                lemma_without_shortens(self.active@, id);
            }
        }
        match event {
            WorkerEvent::CodexDetected(_) => {
                self.codex_detection_active = false;
            },
            WorkerEvent::QueryFinished { account_id, data: _ } => remove_id(
                &mut self.active,
                *account_id,
            ),
            WorkerEvent::LoginFinished { account_id, data: _ } => remove_id(
                &mut self.active,
                *account_id,
            ),
            WorkerEvent::LogoutFinished { account_id } => remove_id(&mut self.active, *account_id),
            WorkerEvent::Failed { account_id, operation, failure: _ } => {
                remove_id(&mut self.active, *account_id);
                if *operation == OperationKind::SwitchDesktopAccount || *operation
                    == OperationKind::InspectDesktopAccount {
                    self.desktop_operation = None;
                }
            },
            WorkerEvent::DesktopInspected { inspection: _, verified_identity: _ } => {
                self.desktop_operation = None;
            },
            WorkerEvent::DesktopSwitchFinished {
                account_id: _,
                identity: _,
                recovery_path: _,
                already_active: _,
                warning: _,
            } => {
                self.desktop_operation = None;
            },
            _ => {},
        }
    }

    /// Ends all work.
    pub fn shutdown(&mut self)
        ensures
            !final(self).is_busy(),
            final(self).codex_detection_active == old(self).codex_detection_active,
            is_exclusive(*final(self)),
    {
        self.active.clear();
        self.desktop_operation = None;
    }
}

/// Work on the desktop application and work on accounts exclude one another.
pub open spec fn is_exclusive(manager: WorkerManager) -> bool {
    manager.desktop_operation is Some ==> manager.active@.len() == 0
}

/// An account to be queried.
#[derive(Debug, PartialEq, Eq)]
pub struct RefreshJob {
    pub account_id: u128,
    pub state_dir: String,
}

/// What is done next when several accounts are refreshed.
#[derive(Debug, PartialEq, Eq)]
pub enum RefreshStep {
    /// Report the account as given up.
    Skip(u128),
    /// Query the account in its home.
    Query(u128, String),
    Finished,
}

/// A refresh of several accounts, one after the other.
#[derive(Debug, PartialEq, Eq)]
pub struct RefreshRun {
    pub jobs: Vec<RefreshJob>,
    pub next: usize,
}

impl RefreshRun {
    /// Whether the run is within its jobs.
    pub open spec fn well_formed(self) -> bool {
        self.next <= self.jobs@.len()
    }

    /// A run that has not begun.
    pub fn new(jobs: Vec<RefreshJob>) -> (r: RefreshRun)
        ensures
            r.well_formed(),
            r.jobs == jobs,
            r.next == 0,
    {
        RefreshRun { jobs, next: 0 }
    }

    /// The account that comes next.
    pub fn upcoming(&self) -> (r: Option<u128>)
        requires
            self.well_formed(),
        ensures
            r == (if self.next < self.jobs@.len() {
                Some(self.jobs@[self.next as int].account_id)
            } else {
                None
            }),
    {
        if self.next < self.jobs.len() {
            Some(self.jobs[self.next].account_id)
        } else {
            None
        }
    }

    /// Takes the next account: it is queried unless its user gave it up.
    pub fn step(&mut self, cancelled: bool) -> (r: RefreshStep)
        requires
            old(self).well_formed(),
        ensures
            final(self).well_formed(),
            final(self).jobs == old(self).jobs,
            if old(self).next < old(self).jobs@.len() {
                let job = old(self).jobs@[old(self).next as int];
                &&& final(self).next == old(self).next + 1
                &&& if cancelled {
                    r == RefreshStep::Skip(job.account_id)
                } else {
                    r == RefreshStep::Query(job.account_id, job.state_dir)
                }
            } else {
                final(self).next == old(self).next && r is Finished
            },
    {
        if self.next >= self.jobs.len() {
            return RefreshStep::Finished;
        }
        let account_id: u128 = self.jobs[self.next].account_id;
        let state_dir = self.jobs[self.next].state_dir.clone();
        self.next = self.next + 1;
        if cancelled {
            RefreshStep::Skip(account_id)
        } else {
            RefreshStep::Query(account_id, state_dir)
        }
    }
}

/// The event of a query that has ended.
pub fn query_ended(account_id: u128, result: Result<CachedAccountData, AppError>) -> (r: WorkerEvent)
    ensures
        match result {
            Ok(data) => r == (WorkerEvent::QueryFinished { account_id, data }),
            Err(error) => is_failure(r, account_id, OperationKind::Query, error@),
        },
{
    match result {
        Ok(data) => WorkerEvent::QueryFinished { account_id, data },
        Err(error) => failed(account_id, OperationKind::Query, &error),
    }
}

/// The event of a logout that has ended.
pub fn logout_ended(account_id: u128, result: Result<(), AppError>) -> (r: WorkerEvent)
    ensures
        match result {
            Ok(_) => r == (WorkerEvent::LogoutFinished { account_id }),
            Err(error) => is_failure(r, account_id, OperationKind::Logout, error@),
        },
{
    match result {
        Ok(_) => WorkerEvent::LogoutFinished { account_id },
        Err(error) => failed(account_id, OperationKind::Logout, &error),
    }
}

/// Whether an event reports an error.
pub open spec fn is_failure(
    event: WorkerEvent,
    id: u128,
    kind: OperationKind,
    error: ErrorModel,
) -> bool {
    event matches WorkerEvent::Failed { account_id, operation, failure } && account_id == id
        && operation == kind && failure.shows(error)
}

/// The event that reports an error.
pub fn failed(account_id: u128, operation: OperationKind, error: &AppError) -> (r: WorkerEvent)
    ensures
        is_failure(r, account_id, operation, error@),
{
    WorkerEvent::Failed { account_id, operation, failure: WorkerFailure::from_error(error) }
}

/// The event of work that begins.
pub fn started(account_id: u128, operation: OperationKind) -> (r: WorkerEvent)
    ensures
        r matches WorkerEvent::Started { account_id: id, operation: kind, step } && id == account_id
            && kind == operation && step@ == first_step(operation),
{
    let step = match operation {
        OperationKind::Query => "↻ 正在查询",
        OperationKind::Login => "↻ 正在启动官方登录",
        OperationKind::Logout => "↻ 正在退出登录",
        OperationKind::SwitchDesktopAccount => "↻ 正在检查目标账号",
        OperationKind::InspectDesktopAccount => "↻ 正在验证桌面账号",
    };
    WorkerEvent::Started { account_id, operation, step }
}

/// What is shown while work begins.
pub open spec fn first_step(operation: OperationKind) -> Seq<char> {
    match operation {
        OperationKind::Query => "↻ 正在查询"@,
        OperationKind::Login => "↻ 正在启动官方登录"@,
        OperationKind::Logout => "↻ 正在退出登录"@,
        OperationKind::SwitchDesktopAccount => "↻ 正在检查目标账号"@,
        OperationKind::InspectDesktopAccount => "↻ 正在验证桌面账号"@,
    }
}

/// How far a login has come.
#[derive(Debug, PartialEq, Eq)]
pub enum LoginStage {
    /// The service is asked for a challenge.
    Starting,
    /// The official page is opened.
    Opening(LoginChallenge),
    /// The user is at the official page.
    Waiting(LoginChallenge),
    /// The user gave up; the service is told so.
    CallingOff(AppError),
    /// The account is read.
    Reading,
}

/// What comes back at a stage of a login.
#[derive(Debug, PartialEq, Eq)]
pub enum LoginReply {
    Challenge(Result<LoginChallenge, AppError>),
    Opened(Result<(), String>),
    Completed(Result<(), AppError>),
    CalledOff,
    Data(Result<CachedAccountData, AppError>),
}

/// What follows a stage of a login.
#[derive(Debug, PartialEq, Eq)]
pub enum LoginNext {
    Stage(LoginStage),
    Finish(WorkerEvent),
}

/// Whether a reply belongs to a stage.
pub open spec fn login_reply_fits(stage: LoginStage, reply: LoginReply) -> bool {
    match stage {
        LoginStage::Starting => reply is Challenge,
        LoginStage::Opening(_) => reply is Opened,
        LoginStage::Waiting(_) => reply is Completed,
        LoginStage::CallingOff(_) => reply is CalledOff,
        LoginStage::Reading => reply is Data,
    }
}

/// Whether an event is a step with these words.
pub open spec fn is_step(event: WorkerEvent, id: u128, words: Seq<char>) -> bool {
    event matches WorkerEvent::Step { account_id, step } && account_id == id && step@ == words
}

/// Goes on with a login after a reply. A login that the user gives up is called
/// off before it ends; any other failure ends it at once.
pub fn advance_login(account_id: u128, stage: LoginStage, reply: LoginReply) -> (r: (
    Vec<WorkerEvent>,
    LoginNext,
))
    requires
        login_reply_fits(stage, reply),
    ensures
        match (stage, reply) {
            (LoginStage::Starting, LoginReply::Challenge(Ok(challenge))) => r.0@.len() == 1
                && r.0@[0] == (WorkerEvent::LoginChallenge { account_id, challenge }) && r.1
                == LoginNext::Stage(LoginStage::Opening(challenge)),
            (LoginStage::Starting, LoginReply::Challenge(Err(error))) => r.0@.len() == 0 && (
            r.1 matches LoginNext::Finish(event) && is_failure(
                event,
                account_id,
                OperationKind::Login,
                error@,
            )),
            (LoginStage::Opening(challenge), LoginReply::Opened(Ok(_))) => r.0@.len() == 1
                && is_step(r.0@[0], account_id, "↻ 等待 OpenAI 登录完成"@) && r.1
                == LoginNext::Stage(LoginStage::Waiting(challenge)),
            (LoginStage::Opening(challenge), LoginReply::Opened(Err(detail))) => r.0@.len() == 2
                && r.0@[0] == (WorkerEvent::BrowserOpenFailed { account_id, detail }) && is_step(
                r.0@[1],
                account_id,
                "↻ 等待 OpenAI 登录完成"@,
            ) && r.1 == LoginNext::Stage(LoginStage::Waiting(challenge)),
            (LoginStage::Waiting(challenge), LoginReply::Completed(Ok(_))) => r.0@.len() == 1
                && is_step(r.0@[0], account_id, "↻ 正在读取额度"@) && r.1 == LoginNext::Stage(
                LoginStage::Reading,
            ),
            (LoginStage::Waiting(challenge), LoginReply::Completed(Err(error))) => r.0@.len() == 0
                && if error is Cancelled {
                r.1 == LoginNext::Stage(LoginStage::CallingOff(error))
            } else {
                r.1 matches LoginNext::Finish(event) && is_failure(
                    event,
                    account_id,
                    OperationKind::Login,
                    error@,
                )
            },
            (LoginStage::CallingOff(error), LoginReply::CalledOff) => r.0@.len() == 0 && (
            r.1 matches LoginNext::Finish(event) && is_failure(
                event,
                account_id,
                OperationKind::Login,
                error@,
            )),
            (LoginStage::Reading, LoginReply::Data(Ok(data))) => r.0@.len() == 0 && r.1
                == LoginNext::Finish(WorkerEvent::LoginFinished { account_id, data }),
            (LoginStage::Reading, LoginReply::Data(Err(error))) => r.0@.len() == 0 && (
            r.1 matches LoginNext::Finish(event) && is_failure(
                event,
                account_id,
                OperationKind::Login,
                error@,
            )),
            _ => true,
        },
{
    let mut events: Vec<WorkerEvent> = Vec::new();
    match stage {
        LoginStage::Starting => {
            if let LoginReply::Challenge(result) = reply {
                match result {
                    Ok(challenge) => {
                        events.push(
                            WorkerEvent::LoginChallenge { account_id, challenge: challenge.copy() },
                        );
                        return (events, LoginNext::Stage(LoginStage::Opening(challenge)));
                    },
                    Err(error) => {
                        return (
                            events,
                            LoginNext::Finish(failed(account_id, OperationKind::Login, &error)),
                        );
                    },
                }
            }
        },
        LoginStage::Opening(challenge) => {
            if let LoginReply::Opened(Err(detail)) = reply {
                events.push(WorkerEvent::BrowserOpenFailed { account_id, detail });
            }
            events.push(WorkerEvent::Step { account_id, step: "↻ 等待 OpenAI 登录完成" });
            return (events, LoginNext::Stage(LoginStage::Waiting(challenge)));
        },
        LoginStage::Waiting(_) => {
            if let LoginReply::Completed(Err(error)) = reply {
                if let AppError::Cancelled = error {
                    return (events, LoginNext::Stage(LoginStage::CallingOff(error)));
                }
                return (
                    events,
                    LoginNext::Finish(failed(account_id, OperationKind::Login, &error)),
                );
            }
            events.push(WorkerEvent::Step { account_id, step: "↻ 正在读取额度" });
            return (events, LoginNext::Stage(LoginStage::Reading));
        },
        LoginStage::CallingOff(error) => {
            return (events, LoginNext::Finish(failed(account_id, OperationKind::Login, &error)));
        },
        LoginStage::Reading => {
            if let LoginReply::Data(result) = reply {
                match result {
                    Ok(data) => {
                        return (
                            events,
                            LoginNext::Finish(WorkerEvent::LoginFinished { account_id, data }),
                        );
                    },
                    Err(error) => {
                        return (
                            events,
                            LoginNext::Finish(failed(account_id, OperationKind::Login, &error)),
                        );
                    },
                }
            }
        },
    }
    (events, LoginNext::Stage(LoginStage::Starting))
}

/// An identity with the identifier of the credentials where it has none itself.
pub open spec fn is_completed_by(
    done: AccountIdentity,
    identity: AccountIdentity,
    account_id: Option<String>,
) -> bool {
    &&& done.account_id == (if identity.account_id is None {
        account_id
    } else {
        identity.account_id
    })
    &&& done.email == identity.email
    &&& done.masked_email == identity.masked_email
    &&& done.plan_type == identity.plan_type
}

fn complete_identity(identity: AccountIdentity, account_id: &Option<String>) -> (r: AccountIdentity)
    ensures
        is_completed_by(r, identity, *account_id),
{
    let mut identity = identity;
    if identity.account_id.is_none() {
        identity.account_id = copy_text(account_id);
    }
    identity
}

/// Whether the credentials that were found are those of the account that the
/// service reports.
pub open spec fn is_confirmed(
    identity: Option<CredentialIdentity>,
    verified: AccountIdentity,
) -> bool {
    identity matches Some(i) && i@.is_account(verified@)
}

/// What follows the look at the desktop application's credentials.
#[derive(Debug, PartialEq, Eq)]
pub enum InspectNext {
    /// The service is asked whose they are.
    Ask(DesktopCredentialInspection),
    /// There is nothing that the service could be asked.
    Finish(WorkerEvent),
}

/// Goes on after the look at the desktop application's credentials: the service
/// is asked only where they say whose they are.
pub fn begin_inspection(found: Result<DesktopCredentialInspection, AppError>) -> (r: InspectNext)
    ensures
        match found {
            Ok(inspection) => if inspection.identity is Some {
                r == InspectNext::Ask(inspection)
            } else {
                r == InspectNext::Finish(
                    WorkerEvent::DesktopInspected { inspection, verified_identity: None },
                )
            },
            Err(error) => r matches InspectNext::Finish(event) && is_failure(
                event,
                NIL,
                OperationKind::InspectDesktopAccount,
                error@,
            ),
        },
{
    match found {
        Ok(inspection) => if inspection.identity.is_some() {
            InspectNext::Ask(inspection)
        } else {
            InspectNext::Finish(
                WorkerEvent::DesktopInspected { inspection, verified_identity: None },
            )
        },
        Err(error) => InspectNext::Finish(
            failed(NIL, OperationKind::InspectDesktopAccount, &error),
        ),
    }
}

/// The event of an inspection after the service was asked.
pub fn inspection_ended(
    inspection: DesktopCredentialInspection,
    reply: Result<AccountIdentity, AppError>,
) -> (r: WorkerEvent)
    ensures
        match reply {
            Ok(verified) => r matches WorkerEvent::DesktopInspected {
                inspection: settled,
                verified_identity: Some(identity),
            } && is_settlement(inspection, verified, settled, identity),
            Err(error) => is_failure(r, NIL, OperationKind::InspectDesktopAccount, error@),
        },
{
    match reply {
        Ok(verified) => {
            let (inspection, verified) = settle_inspection(inspection, verified);
            WorkerEvent::DesktopInspected { inspection, verified_identity: Some(verified) }
        },
        Err(error) => failed(NIL, OperationKind::InspectDesktopAccount, &error),
    }
}

/// Whether this is what comes of an inspection and of what the service reports.
/// What the service does not bear out counts as unknown.
pub open spec fn is_settlement(
    inspection: DesktopCredentialInspection,
    verified: AccountIdentity,
    settled: DesktopCredentialInspection,
    identity: AccountIdentity,
) -> bool {
    &&& settled.identity == inspection.identity
    &&& settled.owner == (if is_confirmed(inspection.identity, verified) {
        inspection.owner
    } else {
        CredentialOwner::Unmanaged
    })
    &&& is_completed_by(
        identity,
        verified,
        match inspection.identity {
            Some(i) => i.account_id,
            None => None,
        },
    )
}

/// Holds what was found of the desktop application's credentials against what
/// the service reports. What the service does not bear out counts as unknown.
pub fn settle_inspection(
    inspection: DesktopCredentialInspection,
    verified: AccountIdentity,
) -> (r: (DesktopCredentialInspection, AccountIdentity))
    ensures
        is_settlement(inspection, verified, r.0, r.1),
{
    let mut inspection = inspection;
    let confirmed = match &inspection.identity {
        Some(identity) => identity.matches_account(&verified),
        None => false,
    };
    if !confirmed {
        inspection.owner = CredentialOwner::Unmanaged;
    }
    let none: Option<String> = None;
    let verified = match &inspection.identity {
        Some(identity) => complete_identity(verified, &identity.account_id),
        None => complete_identity(verified, &none),
    };
    (inspection, verified)
}

/// The end of a switch that succeeded.
#[derive(Debug, PartialEq, Eq)]
pub struct SwitchSuccess {
    pub identity: AccountIdentity,
    pub recovery_path: Option<String>,
    pub already_active: bool,
    pub warning: Option<String>,
}

/// How far the checks before a switch have come.
#[derive(Debug, PartialEq, Eq)]
pub enum CheckStage {
    /// The credentials of the target are read.
    Target,
    /// The service is asked who the target is.
    Identity { expected: CredentialIdentity },
    /// The credentials of the desktop application are read.
    Global { expected: CredentialIdentity, identity: AccountIdentity },
    /// The service is asked who the desktop application is.
    Current { expected: CredentialIdentity, identity: AccountIdentity },
    /// The target is there already; its credentials are restricted.
    Harden { identity: AccountIdentity },
}

/// What comes back at a check before a switch.
#[derive(Debug, PartialEq, Eq)]
pub enum CheckReply {
    Target(Result<CredentialIdentity, AppError>),
    Identity(Result<AccountIdentity, AppError>),
    Global(Result<DesktopCredentialInspection, AppError>),
    Hardened(Result<(), AppError>),
}

/// What follows a check before a switch.
#[derive(Debug, PartialEq, Eq)]
pub enum CheckNext {
    Stage(CheckStage),
    /// The switch itself begins, and can no longer be given up.
    Commit(CredentialIdentity),
    Finish(Result<SwitchSuccess, AppError>),
}

/// Whether a reply belongs to a check.
pub open spec fn check_reply_fits(stage: CheckStage, reply: CheckReply) -> bool {
    match stage {
        CheckStage::Target => reply is Target,
        CheckStage::Identity { expected } => reply is Identity,
        CheckStage::Global { expected, identity } => reply is Global,
        CheckStage::Current { expected, identity } => reply is Identity,
        CheckStage::Harden { identity } => reply is Hardened,
    }
}

/// Whether this is how a check passes on to the switch itself: given up where
/// the user gave up.
pub open spec fn is_commit(next: CheckNext, expected: CredentialIdentity, cancelled: bool) -> bool {
    if cancelled {
        next matches CheckNext::Finish(Err(e)) && e@ is Cancelled
    } else {
        next == CheckNext::Commit(expected)
    }
}

fn commit(expected: CredentialIdentity, cancelled: bool) -> (r: CheckNext)
    ensures
        is_commit(r, expected, cancelled),
{
    if cancelled {
        CheckNext::Finish(Err(AppError::Cancelled))
    } else {
        CheckNext::Commit(expected)
    }
}

/// Goes on with the checks before a switch after a reply.
pub fn advance_check(target: u128, stage: CheckStage, reply: CheckReply, cancelled: bool) -> (r:
    CheckNext)
    requires
        check_reply_fits(stage, reply),
    ensures
        match (stage, reply) {
            (CheckStage::Target, CheckReply::Target(Ok(expected))) => r == CheckNext::Stage(
                CheckStage::Identity { expected },
            ),
            (CheckStage::Target, CheckReply::Target(Err(error))) => r == CheckNext::Finish(
                Err(error),
            ),
            (CheckStage::Identity { expected }, CheckReply::Identity(Ok(found))) => if (
            expected@.is_account(found@)) {
                r matches CheckNext::Stage(CheckStage::Global { expected: kept, identity }) && kept
                    == expected && is_completed_by(identity, found, expected.account_id)
            } else {
                r matches CheckNext::Finish(Err(e)) && e@ == ErrorModel::DesktopSwitch(
                    "目标 auth.json 身份与目标账号 account/read 返回不一致"@,
                )
            },
            (CheckStage::Identity { expected }, CheckReply::Identity(Err(error))) => r
                == CheckNext::Finish(Err(error)),
            (CheckStage::Global { expected, identity }, CheckReply::Global(Ok(current))) => if (
            current.owner == CredentialOwner::Managed(target)) {
                r == CheckNext::Stage(CheckStage::Current { expected, identity })
            } else {
                is_commit(r, expected, cancelled)
            },
            (CheckStage::Global { expected, identity }, CheckReply::Global(Err(error))) => r
                == CheckNext::Finish(Err(error)),
            (CheckStage::Current { expected, identity }, CheckReply::Identity(Ok(found))) => if (
            expected@.is_account(found@)) {
                r == CheckNext::Stage(CheckStage::Harden { identity })
            } else {
                is_commit(r, expected, cancelled)
            },
            (CheckStage::Current { expected, identity }, CheckReply::Identity(Err(_))) => is_commit(
                r,
                expected,
                cancelled,
            ),
            (CheckStage::Harden { identity }, CheckReply::Hardened(Ok(_))) => r matches CheckNext::Finish(
                Ok(success),
            ) && success.identity == identity && success.recovery_path is None
                && success.already_active && success.warning is None,
            (CheckStage::Harden { identity }, CheckReply::Hardened(Err(error))) => r
                == CheckNext::Finish(Err(error)),
            _ => true,
        },
{
    match stage {
        CheckStage::Target => match reply {
            CheckReply::Target(Ok(expected)) => CheckNext::Stage(CheckStage::Identity { expected }),
            CheckReply::Target(Err(error)) => CheckNext::Finish(Err(error)),
            _ => CheckNext::Finish(Err(AppError::Cancelled)),
        },
        CheckStage::Identity { expected } => match reply {
            CheckReply::Identity(Ok(found)) => {
                if expected.matches_account(&found) {
                    let identity = complete_identity(found, &expected.account_id);
                    CheckNext::Stage(CheckStage::Global { expected, identity })
                } else {
                    CheckNext::Finish(
                        Err(
                            AppError::DesktopSwitch(
                                "目标 auth.json 身份与目标账号 account/read 返回不一致".to_owned(),
                            ),
                        ),
                    )
                }
            },
            CheckReply::Identity(Err(error)) => CheckNext::Finish(Err(error)),
            _ => CheckNext::Finish(Err(AppError::Cancelled)),
        },
        CheckStage::Global { expected, identity } => match reply {
            CheckReply::Global(Ok(current)) => {
                if current.owner == CredentialOwner::Managed(target) {
                    CheckNext::Stage(CheckStage::Current { expected, identity })
                } else {
                    commit(expected, cancelled)
                }
            },
            CheckReply::Global(Err(error)) => CheckNext::Finish(Err(error)),
            _ => CheckNext::Finish(Err(AppError::Cancelled)),
        },
        CheckStage::Current { expected, identity } => {
            if let CheckReply::Identity(Ok(found)) = reply {
                if expected.matches_account(&found) {
                    return CheckNext::Stage(CheckStage::Harden { identity });
                }
            }
            commit(expected, cancelled)
        },
        CheckStage::Harden { identity } => match reply {
            CheckReply::Hardened(Err(error)) => CheckNext::Finish(Err(error)),
            _ => CheckNext::Finish(
                Ok(
                    SwitchSuccess {
                        identity,
                        recovery_path: None,
                        already_active: true,
                        warning: None,
                    },
                ),
            ),
        },
    }
}

/// What is shown when a switch itself begins.
pub const COMMIT_STEP: &'static str = "↻ 正在识别并关闭桌面应用";

/// How far a switch itself has come. None of it can be given up.
#[derive(Debug, PartialEq, Eq)]
pub enum CommitStage {
    /// The desktop application is ended.
    Stop { expected: CredentialIdentity },
    /// The credentials are replaced.
    Replace { expected: CredentialIdentity, host: HostShutdown },
    /// The credentials could not be replaced; the application is started again.
    Resume { error: AppError, host: HostShutdown },
    /// The application is started again with the new credentials.
    Restart { expected: CredentialIdentity, host: HostShutdown, receipt: SwitchReceipt },
    /// The service is asked who the desktop application is now.
    Verify { expected: CredentialIdentity, receipt: SwitchReceipt, warning: Option<String> },
    /// It is not who it should be; the application is ended again.
    StopAgain { receipt: SwitchReceipt },
    /// The credentials are put back.
    RollBack { host: HostShutdown, receipt: SwitchReceipt },
    /// The application is started again with the credentials as they were.
    ResumeOld { host: HostShutdown, error: AppError },
}

/// What comes back at a stage of a switch.
#[derive(Debug, PartialEq, Eq)]
pub enum CommitReply {
    Stopped(Result<HostShutdown, AppError>),
    Replaced(Result<SwitchReceipt, AppError>),
    Restarted(Result<bool, AppError>),
    Identity(Result<AccountIdentity, AppError>),
    RolledBack(Result<(), AppError>),
}

/// What follows a stage of a switch.
#[derive(Debug, PartialEq, Eq)]
pub enum CommitNext {
    Stage(CommitStage),
    Finish(Result<SwitchSuccess, AppError>),
}

/// Whether a reply belongs to a stage of a switch.
pub open spec fn commit_reply_fits(stage: CommitStage, reply: CommitReply) -> bool {
    match stage {
        CommitStage::Stop { expected } => reply is Stopped,
        CommitStage::Replace { expected, host } => reply is Replaced,
        CommitStage::Resume { error, host } => reply is Restarted,
        CommitStage::Restart { expected, host, receipt } => reply is Restarted,
        CommitStage::Verify { expected, receipt, warning } => reply is Identity,
        CommitStage::StopAgain { receipt } => reply is Stopped,
        CommitStage::RollBack { host, receipt } => reply is RolledBack,
        CommitStage::ResumeOld { host, error } => reply is Restarted,
    }
}

/// Where the credentials as they were can be found.
pub open spec fn recovery_words(recovery_path: Option<String>) -> Seq<char> {
    match recovery_path {
        Some(path) => path@,
        None => "切换前不存在全局 auth.json"@,
    }
}

/// What the user is warned of after a switch.
pub open spec fn warnings_of(owner: CredentialOwner, restarted: Result<bool, AppError>) -> Seq<
    Seq<char>,
> {
    let doubtful = if owner == CredentialOwner::Unmanaged || owner == CredentialOwner::Ambiguous {
        seq!["切换前的全局凭据属于未管理或身份有歧义的账号，已保存受限恢复副本"@]
    } else {
        Seq::empty()
    };
    match restarted {
        Ok(_) => doubtful,
        Err(error) => doubtful.push(error@.diagnosis()),
    }
}

/// Warnings in one text, where there are any.
pub open spec fn warning_words(warnings: Seq<Seq<char>>) -> Option<Seq<char>> {
    if warnings.len() == 0 {
        None
    } else {
        Some(joined(warnings, "；"@))
    }
}

fn collect_warnings(owner: CredentialOwner, restarted: &Result<bool, AppError>) -> (r: Option<
    String,
>)
    ensures
        text_of(r) == warning_words(warnings_of(owner, *restarted)),
{
    let mut warnings: Vec<String> = Vec::new();
    if owner == CredentialOwner::Unmanaged || owner == CredentialOwner::Ambiguous {
        warnings.push(
            "切换前的全局凭据属于未管理或身份有歧义的账号，已保存受限恢复副本".to_owned(),
        );
    }
    if let Err(error) = restarted {
        warnings.push(error.diagnostic());
    }
    assert(texts(warnings@) =~= warnings_of(owner, *restarted));
    if warnings.len() == 0 {
        None
    } else {
        Some(join_texts(&warnings, "；"))
    }
}

fn recovery_text(recovery_path: &Option<String>) -> (r: String)
    ensures
        r@ == recovery_words(*recovery_path),
{
    match recovery_path {
        Some(path) => path.clone(),
        None => "切换前不存在全局 auth.json".to_owned(),
    }
}

/// The error of a switch after which the application could not be ended again.
pub open spec fn stuck_error(recovery: Seq<char>, error: ErrorModel) -> ErrorModel {
    ErrorModel::DesktopSwitch(
        "切换后身份校验失败，且无法安全关闭已重新启动的桌面宿主，因此未自动回滚。恢复信息："@
            + recovery + "。"@ + error.diagnosis(),
    )
}

/// The error of a switch that was or could not be undone.
pub open spec fn undone_error(recovery: Seq<char>, undone: Result<(), AppError>) -> ErrorModel {
    ErrorModel::DesktopSwitch(
        match undone {
            Ok(_) => "切换后身份校验失败，已回滚全局凭据。恢复信息："@ + recovery,
            Err(error) => "切换后身份校验失败且自动回滚失败；请从受限恢复副本手动恢复："@
                + recovery + "。"@ + error@.diagnosis(),
        },
    )
}

/// Goes on with a switch after a reply, and gives the steps to show. Success is
/// only reported where the service bears out who the desktop application is;
/// else its old credentials come back once it has ended.
pub fn advance_commit(stage: CommitStage, reply: CommitReply) -> (r: (
    Vec<&'static str>,
    CommitNext,
))
    requires
        commit_reply_fits(stage, reply),
    ensures
        r.1 matches CommitNext::Finish(Ok(success)) ==> (stage matches CommitStage::Verify {
            expected,
            receipt,
            warning,
        } && reply matches CommitReply::Identity(Ok(found)) && expected@.is_account(found@)),
        r.1 matches CommitNext::Stage(CommitStage::RollBack { host, receipt }) ==> (
        reply matches CommitReply::Stopped(Ok(_))),
        match (stage, reply) {
            (CommitStage::Stop { expected }, CommitReply::Stopped(Ok(host))) => r.0@.len() == 2
                && r.0@[0]@ == "↻ 正在保存当前账号"@ && r.0@[1]@ == "↻ 正在切换凭据"@ && r.1
                == CommitNext::Stage(CommitStage::Replace { expected, host }),
            (CommitStage::Stop { expected }, CommitReply::Stopped(Err(error))) => r.0@.len() == 0
                && r.1 == CommitNext::Finish(Err(error)),
            (
                CommitStage::Replace { expected, host },
                CommitReply::Replaced(Ok(receipt)),
            ) => r.0@.len() == 0 && r.1 == CommitNext::Stage(
                CommitStage::Restart { expected, host, receipt },
            ),
            (CommitStage::Replace { expected, host }, CommitReply::Replaced(Err(error))) => r.0@.len()
                == 0 && r.1 == CommitNext::Stage(CommitStage::Resume { error, host }),
            (CommitStage::Resume { error, host }, _) => r.0@.len() == 0 && r.1
                == CommitNext::Finish(Err(error)),
            (
                CommitStage::Restart { expected, host, receipt },
                CommitReply::Restarted(restarted),
            ) => (r.1 matches CommitNext::Stage(
                CommitStage::Verify { expected: e, receipt: kept, warning },
            ) && e == expected && kept == receipt && text_of(warning) == warning_words(
                warnings_of(receipt.previous_owner, restarted),
            )) && if host.was_running {
                r.0@.len() == 2 && r.0@[0]@ == "↻ 正在重新启动应用"@ && r.0@[1]@
                    == "↻ 正在验证桌面账号"@
            } else {
                r.0@.len() == 1 && r.0@[0]@ == "↻ 正在验证桌面账号"@
            },
            (
                CommitStage::Verify { expected, receipt, warning },
                CommitReply::Identity(found),
            ) => r.0@.len() == 0 && if found is Ok && expected@.is_account(found->Ok_0@) {
                r.1 matches CommitNext::Finish(Ok(success)) && is_completed_by(
                    success.identity,
                    found->Ok_0,
                    expected.account_id,
                ) && success.recovery_path == receipt.recovery_path && !success.already_active
                    && success.warning == warning
            } else {
                r.1 == CommitNext::Stage(CommitStage::StopAgain { receipt })
            },
            (CommitStage::StopAgain { receipt }, CommitReply::Stopped(Ok(host))) => r.0@.len() == 0
                && r.1 == CommitNext::Stage(CommitStage::RollBack { host, receipt }),
            (CommitStage::StopAgain { receipt }, CommitReply::Stopped(Err(error))) => r.0@.len()
                == 0 && (r.1 matches CommitNext::Finish(Err(e)) && e@ == stuck_error(
                recovery_words(receipt.recovery_path),
                error@,
            )),
            (
                CommitStage::RollBack { host, receipt },
                CommitReply::RolledBack(undone),
            ) => r.0@.len() == 0 && (r.1 matches CommitNext::Stage(
                CommitStage::ResumeOld { host: kept, error },
            ) && kept == host && error@ == undone_error(
                recovery_words(receipt.recovery_path),
                undone,
            )),
            (CommitStage::ResumeOld { host, error }, _) => r.0@.len() == 0 && r.1
                == CommitNext::Finish(Err(error)),
            _ => true,
        },
{
    let mut steps: Vec<&'static str> = Vec::new();
    match stage {
        CommitStage::Stop { expected } => {
            if let CommitReply::Stopped(Ok(host)) = reply {
                steps.push("↻ 正在保存当前账号");
                steps.push("↻ 正在切换凭据");
                return (steps, CommitNext::Stage(CommitStage::Replace { expected, host }));
            }
            if let CommitReply::Stopped(Err(error)) = reply {
                return (steps, CommitNext::Finish(Err(error)));
            }
            (steps, CommitNext::Finish(Err(AppError::Cancelled)))
        },
        CommitStage::Replace { expected, host } => {
            if let CommitReply::Replaced(Ok(receipt)) = reply {
                return (steps, CommitNext::Stage(CommitStage::Restart { expected, host, receipt }));
            }
            if let CommitReply::Replaced(Err(error)) = reply {
                return (steps, CommitNext::Stage(CommitStage::Resume { error, host }));
            }
            (steps, CommitNext::Finish(Err(AppError::Cancelled)))
        },
        CommitStage::Resume { error, host: _ } => (steps, CommitNext::Finish(Err(error))),
        CommitStage::Restart { expected, host, receipt } => {
            if let CommitReply::Restarted(restarted) = reply {
                let warning = collect_warnings(receipt.previous_owner, &restarted);
                if host.was_running {
                    steps.push("↻ 正在重新启动应用");
                }
                steps.push("↻ 正在验证桌面账号");
                return (
                    steps,
                    CommitNext::Stage(CommitStage::Verify { expected, receipt, warning }),
                );
            }
            (steps, CommitNext::Finish(Err(AppError::Cancelled)))
        },
        CommitStage::Verify { expected, receipt, warning } => {
            if let CommitReply::Identity(Ok(found)) = reply {
                if expected.matches_account(&found) {
                    let identity = complete_identity(found, &expected.account_id);
                    return (
                        steps,
                        CommitNext::Finish(
                            Ok(
                                SwitchSuccess {
                                    identity,
                                    recovery_path: receipt.recovery_path,
                                    already_active: false,
                                    warning,
                                },
                            ),
                        ),
                    );
                }
            }
            (steps, CommitNext::Stage(CommitStage::StopAgain { receipt }))
        },
        CommitStage::StopAgain { receipt } => {
            if let CommitReply::Stopped(Ok(host)) = reply {
                return (steps, CommitNext::Stage(CommitStage::RollBack { host, receipt }));
            }
            if let CommitReply::Stopped(Err(error)) = reply {
                let mut detail = "切换后身份校验失败，且无法安全关闭已重新启动的桌面宿主，因此未自动回滚。恢复信息：".to_owned();
                detail.append(recovery_text(&receipt.recovery_path).as_str());
                detail.append("。");
                detail.append(error.diagnostic().as_str());
                return (steps, CommitNext::Finish(Err(AppError::DesktopSwitch(detail))));
            }
            (steps, CommitNext::Finish(Err(AppError::Cancelled)))
        },
        CommitStage::RollBack { host, receipt } => {
            if let CommitReply::RolledBack(undone) = reply {
                let recovery = recovery_text(&receipt.recovery_path);
                let detail = match &undone {
                    Ok(_) => {
                        let mut out = "切换后身份校验失败，已回滚全局凭据。恢复信息：".to_owned();
                        out.append(recovery.as_str());
                        out
                    },
                    Err(error) => {
                        let mut out = "切换后身份校验失败且自动回滚失败；请从受限恢复副本手动恢复：".to_owned();
                        out.append(recovery.as_str());
                        out.append("。");
                        out.append(error.diagnostic().as_str());
                        out
                    },
                };
                return (
                    steps,
                    CommitNext::Stage(
                        CommitStage::ResumeOld { host, error: AppError::DesktopSwitch(detail) },
                    ),
                );
            }
            (steps, CommitNext::Finish(Err(AppError::Cancelled)))
        },
        CommitStage::ResumeOld { host: _, error } => (steps, CommitNext::Finish(Err(error))),
    }
}

/// The event of a switch that has ended.
pub fn switch_ended(account_id: u128, result: Result<SwitchSuccess, AppError>) -> (r: WorkerEvent)
    ensures
        match result {
            Ok(success) => r == (WorkerEvent::DesktopSwitchFinished {
                account_id,
                identity: success.identity,
                recovery_path: success.recovery_path,
                already_active: success.already_active,
                warning: success.warning,
            }),
            Err(error) => is_failure(r, account_id, OperationKind::SwitchDesktopAccount, error@),
        },
{
    match result {
        Ok(success) => WorkerEvent::DesktopSwitchFinished {
            account_id,
            identity: success.identity,
            recovery_path: success.recovery_path,
            already_active: success.already_active,
            warning: success.warning,
        },
        Err(error) => failed(account_id, OperationKind::SwitchDesktopAccount, &error),
    }
}

/// An error is shown by its kind, and with the summary and the redacted words of
/// that very error.
pub proof fn lemma_failures_are_told_apart(failure: WorkerFailure, error: ErrorModel)
    requires
        failure.shows(error),
    ensures
        failure.category == FailureCategory::Cancelled <==> error is Cancelled,
        failure.category == FailureCategory::NotLoggedIn <==> error is NotLoggedIn,
        failure.category == FailureCategory::TimedOut <==> error is Timeout,
        failure.category == FailureCategory::CodexUnavailable <==> error is CodexUnavailable,
        failure.category == FailureCategory::ProtocolIncompatible <==> error is ProtocolIncompatible,
        failure.summary@ == error.summary(),
        failure.diagnostic@ == redacted(error.words()),
{
}

/// An event that ends work on an account is of that account, and one that only tells
/// of its course ends nothing; work on the desktop application ends with a look, a
/// switch, or the failure of either, and with nothing else.
pub proof fn lemma_events_end_work(event: WorkerEvent)
    ensures
        event matches WorkerEvent::QueryFinished { account_id, data } ==> ended_account(event) == Some(
            account_id,
        ),
        event matches WorkerEvent::LoginFinished { account_id, data } ==> ended_account(event) == Some(
            account_id,
        ),
        event matches WorkerEvent::LogoutFinished { account_id } ==> ended_account(event) == Some(
            account_id,
        ),
        event matches WorkerEvent::Failed { account_id, operation, failure } ==> ended_account(event)
            == Some(account_id) && (ends_desktop_work(event) <==> operation
            == OperationKind::SwitchDesktopAccount || operation
            == OperationKind::InspectDesktopAccount),
        event is Started || event is Step || event is LoginChallenge || event is BrowserOpenFailed
            || event is CodexDetected ==> ended_account(event) is None && !ends_desktop_work(event),
        event is DesktopInspected || event is DesktopSwitchFinished ==> ends_desktop_work(event),
        event is QueryFinished || event is LoginFinished || event is LogoutFinished
            ==> !ends_desktop_work(event),
{
}

/// Taking an identifier out keeps the others in their order.
pub proof fn lemma_without_keeps_order(a: Seq<u128>, b: Seq<u128>, id: u128)
    ensures
        without(a + b, id) == without(a, id) + without(b, id),
        !a.contains(id) ==> without(a, id) == a,
        without(seq![id], id).len() == 0,
    decreases b.len(),
{
    reveal_with_fuel(without, 2);
    assert(seq![id].drop_last() =~= Seq::empty());
    if b.len() == 0 {
        assert(a + b =~= a);
        assert(without(a, id) + without(b, id) =~= without(a, id));
    } else {
        lemma_without_keeps_order(a, b.drop_last(), id);
        assert((a + b).drop_last() =~= a + b.drop_last());
        assert((a + b).last() == b.last());
        assert(without(a + b, id) =~= without(a, id) + without(b, id));
    }
    if !a.contains(id) {
        lemma_without_none(a, id);
    }
}

proof fn lemma_without_none(ids: Seq<u128>, id: u128)
    requires
        !ids.contains(id),
    ensures
        without(ids, id) == ids,
    decreases ids.len(),
{
    if ids.len() > 0 {
        let front = ids.drop_last();
        assert forall|i: int| 0 <= i < front.len() implies front[i] != id by {
            assert(ids[i] != id);
        }
        assert(!front.contains(id));
        lemma_without_none(front, id);
        assert(ids[ids.len() - 1] != id);
        assert(without(ids, id) =~= ids);
    } else {
        assert(without(ids, id) =~= ids);
    }
}

/// Only an identity without an identifier of its own gets the one of the
/// credentials; all else of it stays.
pub proof fn lemma_identity_is_completed(
    done: AccountIdentity,
    identity: AccountIdentity,
    account_id: Option<String>,
)
    requires
        is_completed_by(done, identity, account_id),
    ensures
        identity.account_id is Some ==> done.account_id == identity.account_id,
        identity.account_id is None ==> done.account_id == account_id,
        done.email == identity.email,
        done.masked_email == identity.masked_email,
        done.plan_type == identity.plan_type,
{
}

/// An owner that was found counts only where the service reports an account that the
/// credentials belong to: by the identifier where both have one, else by the
/// address. Otherwise the credentials count as unmanaged.
pub proof fn lemma_unconfirmed_owner_is_unmanaged(
    inspection: DesktopCredentialInspection,
    verified: AccountIdentity,
    settled: DesktopCredentialInspection,
    identity: AccountIdentity,
)
    requires
        is_settlement(inspection, verified, settled, identity),
    ensures
        settled.identity == inspection.identity,
        inspection.identity is None ==> settled.owner == CredentialOwner::Unmanaged,
        inspection.identity matches Some(found) ==> (agree(
            found@.account_id,
            found@.email,
            verified@.account_id,
            verified@.email,
        ) ==> settled.owner == inspection.owner) && (!agree(
            found@.account_id,
            found@.email,
            verified@.account_id,
            verified@.email,
        ) ==> settled.owner == CredentialOwner::Unmanaged),
        identity.email == verified.email && identity.plan_type == verified.plan_type,
        verified.account_id is Some ==> identity.account_id == verified.account_id,
        verified.account_id is None ==> (inspection.identity matches Some(found)
            ==> identity.account_id == found.account_id),
{
}

/// A check passes on to the switch itself exactly if the user did not give up.
pub proof fn lemma_giving_up_stops_the_switch(
    next: CheckNext,
    expected: CredentialIdentity,
    cancelled: bool,
)
    requires
        is_commit(next, expected, cancelled),
    ensures
        next == CheckNext::Commit(expected) <==> !cancelled,
        next is Commit <==> !cancelled,
        cancelled ==> (next matches CheckNext::Finish(Err(e)) && e@ is Cancelled),
{
}

/// The user is warned of credentials whose owner is not known, and of a start that
/// failed, by its redacted words; of nothing else.
pub proof fn lemma_warnings(owner: CredentialOwner, restarted: Result<bool, AppError>)
    ensures
        ({
            let warnings = warnings_of(owner, restarted);
            let words = warning_words(warnings);
            let doubtful = owner == CredentialOwner::Unmanaged || owner
                == CredentialOwner::Ambiguous;
            &&& words is None <==> !doubtful && restarted is Ok
            &&& doubtful && restarted is Ok ==> warnings.len() == 1
            &&& doubtful && restarted is Err ==> warnings.len() == 2
            &&& restarted matches Err(error) ==> (words matches Some(told) && ends(
                told,
                redacted(error@.words()),
            ))
        }),
{
    let warnings = warnings_of(owner, restarted);
    if let Err(error) = restarted {
        let told = warning_words(warnings)->0;
        let tail = redacted(error@.words());
        assert(warnings.last() == tail);
        if warnings.len() == 1 {
            assert(warnings[0] == tail);
        }
        assert(told.subrange(told.len() - tail.len(), told.len() as int) =~= tail);
    }
}

/// A switch that failed says where the credentials as they were can be found, and
/// with what it failed; whether they were put back makes a difference.
pub proof fn lemma_failed_switch_tells_the_way_back(
    path: String,
    error: AppError,
)
    ensures
        recovery_words(Some(path)) == path@,
        recovery_words(None).len() > 0,
        stuck_error(path@, error@) matches ErrorModel::DesktopSwitch(words) && holds(words, path@)
            && ends(words, redacted(error@.words())),
        undone_error(path@, Ok(())) matches ErrorModel::DesktopSwitch(words) && ends(words, path@),
        undone_error(path@, Err(error)) matches ErrorModel::DesktopSwitch(words) && holds(
            words,
            path@,
        ) && ends(words, redacted(error@.words())),
        undone_error(path@, Ok(())) != undone_error(path@, Err(error)),
{
    reveal_strlit("切换前不存在全局 auth.json");
    reveal_strlit("切换后身份校验失败，已回滚全局凭据。恢复信息：");
    reveal_strlit("切换后身份校验失败且自动回滚失败；请从受限恢复副本手动恢复：");
    let tail = redacted(error@.words());
    let stuck = stuck_error(path@, error@)->DesktopSwitch_0;
    let back = undone_error(path@, Ok(()))->DesktopSwitch_0;
    let lost = undone_error(path@, Err(error))->DesktopSwitch_0;
    let at = "切换后身份校验失败，且无法安全关闭已重新启动的桌面宿主，因此未自动回滚。恢复信息："@.len() as int;
    assert(stuck.subrange(at, at + path@.len()) =~= path@);
    assert(stands_at(stuck, path@, at));
    assert(stuck.subrange(stuck.len() - tail.len(), stuck.len() as int) =~= tail);
    assert(back.subrange(back.len() - path@.len(), back.len() as int) =~= path@);
    let at = "切换后身份校验失败且自动回滚失败；请从受限恢复副本手动恢复："@.len() as int;
    assert(lost.subrange(at, at + path@.len()) =~= path@);
    assert(stands_at(lost, path@, at));
    assert(lost.subrange(lost.len() - tail.len(), lost.len() as int) =~= tail);
    assert(back[9] != lost[9]);
}

/// What is reported of an error is of the account and the work that it came of.
pub proof fn lemma_failure_is_of_its_work(
    event: WorkerEvent,
    id: u128,
    kind: OperationKind,
    error: ErrorModel,
)
    requires
        is_failure(event, id, kind, error),
    ensures
        event matches WorkerEvent::Failed { account_id, operation, failure } && account_id == id
            && operation == kind && failure.summary@ == error.summary() && failure.diagnostic@
            == redacted(error.words()),
        ended_account(event) == Some(id),
{
}

/// Work is going on exactly while an account is worked on or the desktop application is.
pub proof fn lemma_when_work_goes_on(manager: WorkerManager)
    ensures
        manager.is_busy() <==> (exists|id: u128| manager.active@.contains(id))
            || manager.desktop_operation is Some,
{
    if manager.active@.len() > 0 {
        assert(manager.active@.contains(manager.active@[0]));
    }
}

/// A step is told of the account that it belongs to, in its own words, and work on the
/// desktop application never goes on beside work on an account.
pub proof fn lemma_steps_and_exclusion(
    manager: WorkerManager,
    account_id: u128,
    step: &'static str,
    id: u128,
    words: Seq<char>,
)
    ensures
        is_step(WorkerEvent::Step { account_id, step }, id, words) <==> account_id == id && step@
            == words,
        is_exclusive(manager) <==> !(manager.desktop_operation is Some && exists|other: u128|
            manager.active@.contains(other)),
{
    if manager.active@.len() > 0 {
        assert(manager.active@.contains(manager.active@[0]));
    }
}

} // verus!
