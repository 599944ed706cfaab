//! Conversations with the account service: what is asked, what each reply leads
//! to, and what is kept of the service's own output.

use vstd::prelude::*;

use crate::account::{AccountIdentity, CachedAccountData, IdentityModel, LoginChallenge};
use crate::error::{AppError, ErrorModel};
use crate::json::{is_settled, lookup, names_ascend, Json, JsonModel, NumberModel};
use crate::logging::{mask_address, masked, redact, redacted};
use crate::protocol::{
    line_reading, model_of, notification, notification_model, parse_line, request, request_model,
    IncomingMessage, MessageModel, RpcError, RpcErrorModel,
};
use crate::rate_limits::{
    parse_rate_limits, parse_token_usage, snapshot_in, usage_in, SnapshotModel,
};
use crate::text::{
    begins, contains_text, ends, ends_with_text, holds, join_texts, joined, lower_text, lowered, same_text,
    sorts_before, text_of, texts,
};
use crate::time::Timestamp;

verus! {

/// How long the first exchange with the service may take.
pub const INITIALIZE_TIMEOUT_MILLIS: u64 = 8_000;

/// How long the service gets to end by itself.
pub const SHUTDOWN_TIMEOUT_MILLIS: u64 = 900;

/// How long the optional report of token activity may take.
pub const USAGE_TIMEOUT_MILLIS: u64 = 5_000;

/// How long the service gets to call a login off.
pub const CANCEL_LOGIN_TIMEOUT_MILLIS: u64 = 3_000;

/// How long a login may take.
pub const LOGIN_TIMEOUT_MILLIS: u64 = 600_000;

/// How many lines of the service's diagnostic output are kept.
pub const MAX_STDERR_LINES: usize = 24;

/// How many notifications are kept for later.
pub const MAX_NOTIFICATIONS: usize = 100;

/// How the service is started.
#[derive(Debug, PartialEq, Eq)]
pub struct ServerLaunch {
    pub arguments: Vec<String>,
    pub variables: Vec<(String, String)>,
    pub removed_variables: Vec<String>,
}

/// The arguments, the environment and the variables that must not be handed on,
/// for a service that works in one home alone and keeps its credentials there.
pub fn server_launch(codex_home: &str) -> (r: ServerLaunch)
    ensures
        texts(r.arguments@) == seq![
            "app-server"@,
            "--stdio"@,
            "-c"@,
            "cli_auth_credentials_store=\"file\""@,
            "-c"@,
            "analytics.enabled=false"@,
        ],
        r.variables@.len() == 3,
        r.variables@[0].0@ == "CODEX_HOME"@ && r.variables@[0].1@ == codex_home@,
        r.variables@[1].0@ == "RUST_LOG"@ && r.variables@[1].1@ == "warn"@,
        r.variables@[2].0@ == "LOG_FORMAT"@ && r.variables@[2].1@ == "json"@,
        texts(r.removed_variables@) == seq![
            "OPENAI_API_KEY"@,
            "CODEX_API_KEY"@,
            "CODEX_ACCESS_TOKEN"@,
        ],
{
    let arguments = vec![
        "app-server".to_owned(),
        "--stdio".to_owned(),
        "-c".to_owned(),
        "cli_auth_credentials_store=\"file\"".to_owned(),
        "-c".to_owned(),
        "analytics.enabled=false".to_owned(),
    ];
    assert(texts(arguments@) =~= seq![
        "app-server"@,
        "--stdio"@,
        "-c"@,
        "cli_auth_credentials_store=\"file\""@,
        "-c"@,
        "analytics.enabled=false"@,
    ]);
    let variables = vec![
        ("CODEX_HOME".to_owned(), codex_home.to_owned()),
        ("RUST_LOG".to_owned(), "warn".to_owned()),
        ("LOG_FORMAT".to_owned(), "json".to_owned()),
    ];
    let removed_variables = vec![
        "OPENAI_API_KEY".to_owned(),
        "CODEX_API_KEY".to_owned(),
        "CODEX_ACCESS_TOKEN".to_owned(),
    ];
    assert(texts(removed_variables@) =~= seq![
        "OPENAI_API_KEY"@,
        "CODEX_API_KEY"@,
        "CODEX_ACCESS_TOKEN"@,
    ]);
    ServerLaunch { arguments, variables, removed_variables }
}

/// The last lines of the service's diagnostic output.
#[derive(Debug, PartialEq, Eq)]
pub struct StderrTail {
    pub lines: Vec<String>,
}

/// A list with one more item at its end, and without its first where it was full.
pub open spec fn shifted<T>(list: Seq<T>, item: T, limit: int) -> Seq<T> {
    if list.len() >= limit {
        list.drop_first().push(item)
    } else {
        list.push(item)
    }
}

impl StderrTail {
    /// No lines yet.
    pub fn new() -> (r: StderrTail)
        ensures
            r.lines@.len() == 0,
    {
        StderrTail { lines: Vec::new() }
    }

    /// Whether no more lines are kept than may be.
    pub open spec fn well_formed(self) -> bool {
        self.lines@.len() <= MAX_STDERR_LINES
    }

    /// Keeps a line, without anything confidential; gives what was kept.
    pub fn push(&mut self, line: &str) -> (r: String)
        requires
            old(self).well_formed(),
        ensures
            final(self).well_formed(),
            texts(final(self).lines@) == shifted(
                texts(old(self).lines@),
                redacted(line@),
                MAX_STDERR_LINES as int,
            ),
            r@ == redacted(line@),
    {
        let safe = redact(line);
        let ghost before = texts(self.lines@);
        if self.lines.len() >= MAX_STDERR_LINES {
            self.lines.remove(0);
            assert(texts(self.lines@) =~= before.drop_first());
        }
        let ghost rest = texts(self.lines@);
        self.lines.push(safe.clone());
        assert(texts(self.lines@) =~= rest.push(safe@));
        safe
    }

    /// The lines that were kept.
    pub fn diagnostics(&self) -> (r: String)
        ensures
            r@ == joined(texts(self.lines@), "\n"@),
    {
        join_texts(&self.lines, "\n")
    }
}

/// What happens while a message is waited for.
#[derive(Debug, PartialEq, Eq)]
pub enum ServerEvent {
    /// The time for the whole exchange is over.
    Expired,
    /// The user gave up.
    Cancelled,
    /// Nothing came in the time that was left.
    Silent,
    /// Reading failed.
    Failed(String),
    /// The service ended; these are its last diagnostic lines.
    Closed(String),
    /// A line came.
    Line(String),
}

/// What an event says.
pub enum EventModel {
    Expired,
    Cancelled,
    Silent,
    Failed(Seq<char>),
    Closed(Seq<char>),
    Line(Seq<char>),
}

impl ServerEvent {
    /// What the event says.
    pub open spec fn view(self) -> EventModel {
        match self {
            ServerEvent::Expired => EventModel::Expired,
            ServerEvent::Cancelled => EventModel::Cancelled,
            ServerEvent::Silent => EventModel::Silent,
            ServerEvent::Failed(s) => EventModel::Failed(s@),
            ServerEvent::Closed(s) => EventModel::Closed(s@),
            ServerEvent::Line(s) => EventModel::Line(s@),
        }
    }
}

/// The message that an event brings, or the error that it means.
pub open spec fn message_of(event: EventModel, exchange: Seq<char>) -> Result<
    MessageModel,
    ErrorModel,
> {
    match event {
        EventModel::Expired => Err(ErrorModel::Timeout(exchange)),
        EventModel::Cancelled => Err(ErrorModel::Cancelled),
        EventModel::Silent => Err(ErrorModel::Timeout("等待 App Server 响应"@)),
        EventModel::Failed(s) => Err(ErrorModel::Io(s)),
        EventModel::Closed(s) => Err(ErrorModel::ProcessExited(s)),
        EventModel::Line(line) => line_reading(line),
    }
}

/// Tells what an event brings.
pub fn next_message(event: ServerEvent, exchange: &str) -> (r: Result<IncomingMessage, AppError>)
    ensures
        match r {
            Ok(message) => message_of(event@, exchange@) == Ok::<MessageModel, ErrorModel>(
                message@,
            ),
            Err(e) => message_of(event@, exchange@) == Err::<MessageModel, ErrorModel>(e@),
        },
{
    match event {
        ServerEvent::Expired => Err(AppError::Timeout(exchange.to_owned())),
        ServerEvent::Cancelled => Err(AppError::Cancelled),
        ServerEvent::Silent => Err(AppError::Timeout("等待 App Server 响应".to_owned())),
        ServerEvent::Failed(s) => Err(AppError::Io(s)),
        ServerEvent::Closed(s) => Err(AppError::ProcessExited(s)),
        ServerEvent::Line(line) => parse_line(line.as_str()),
    }
}

/// The error that a refusal of the service means.
pub open spec fn rpc_failure(method: Seq<char>, error: RpcErrorModel) -> ErrorModel {
    let safe = redacted(error.message);
    let lower = lowered(safe);
    if holds(lower, "authentication required"@) || holds(lower, "not logged"@) || holds(
        lower,
        "unauthorized"@,
    ) {
        ErrorModel::NotLoggedIn
    } else if error.code == Some(-32601i64) || holds(lower, "method not found"@) {
        ErrorModel::ProtocolIncompatible(method + "："@ + safe)
    } else {
        ErrorModel::Server(method + "："@ + safe)
    }
}

/// Tells what a refusal of the service means.
pub fn map_rpc_error(method: &str, error: &RpcError) -> (r: AppError)
    ensures
        r@ == rpc_failure(method@, error@),
{
    let safe = redact(error.message.as_str());
    let lower = lower_text(safe.as_str());
    let lower = lower.as_str();
    if contains_text(lower, "authentication required") || contains_text(lower, "not logged")
        || contains_text(lower, "unauthorized") {
        return AppError::NotLoggedIn;
    }
    let mut detail = method.to_owned();
    detail.append("：");
    detail.append(safe.as_str());
    let unknown = match error.code {
        Some(code) => code == -32601,
        None => false,
    };
    if unknown || contains_text(lower, "method not found") {
        AppError::ProtocolIncompatible(detail)
    } else {
        AppError::Server(detail)
    }
}

/// The answer to a request of the service, which is none that is handled here.
pub open spec fn rejection_model(id: JsonModel, method: Seq<char>) -> JsonModel {
    JsonModel::Object(
        seq![
            (
                "error"@,
                JsonModel::Object(
                    seq![
                        ("code"@, JsonModel::Number(NumberModel::Whole(-32601))),
                        (
                            "message"@,
                            JsonModel::Text(
                                "Codex Usage Monitor does not handle server request "@ + method,
                            ),
                        ),
                    ],
                ),
            ),
            ("id"@, id),
        ],
    )
}

/// Makes the answer to a request of the service.
pub fn reject_server_request(id: Json, method: &str) -> (r: Json)
    ensures
        r@ == rejection_model(id@, method@),
{
    let mut text = "Codex Usage Monitor does not handle server request ".to_owned();
    text.append(method);
    let ghost words = text@;
    let error = Json::empty_object().with("code", Json::signed(-32601)).with(
        "message",
        Json::Text(text),
    );
    assert(error@->Object_0 =~= seq![
        ("code"@, JsonModel::Number(NumberModel::Whole(-32601))),
        ("message"@, JsonModel::Text(words)),
    ]);
    let r = Json::empty_object().with("error", error).with("id", id);
    assert(r@->Object_0 =~= seq![("error"@, error@), ("id"@, id@)]);
    r
}

/// The answer to a request of the service ascends where its identifier does.
pub proof fn lemma_rejection_is_settled(id: JsonModel, method: Seq<char>)
    requires
        is_settled(id),
    ensures
        is_settled(rejection_model(id, method)),
{
    reveal_strlit("error");
    reveal_strlit("id");
    reveal_strlit("code");
    reveal_strlit("message");
    reveal_with_fuel(sorts_before, 2);
    let made = rejection_model(id, method)->Object_0;
    let error = made[0].1;
    let inner = error->Object_0;
    assert(sorts_before("error"@, "id"@));
    assert(sorts_before("code"@, "message"@));
    assert(names_ascend(inner));
    assert forall|i: int| 0 <= i < inner.len() implies is_settled((#[trigger] inner[i]).1) by {
        if i == 0 {
            assert(inner[i].1 is Number);
        } else {
            assert(inner[i].1 is Text);
        }
    }
    assert(is_settled(error));
    assert(names_ascend(made));
    assert forall|i: int| 0 <= i < made.len() implies is_settled((#[trigger] made[i]).1) by {}
}

/// What to do after an event, with the value of a finished exchange.
#[derive(Debug, PartialEq, Eq)]
pub enum RequestStep {
    Wait,
    Send(Json),
    Finish(Result<Json, AppError>),
}

/// What a step says.
pub enum StepModel {
    Wait,
    Send(JsonModel),
    Finish(Result<JsonModel, ErrorModel>),
}

impl RequestStep {
    /// What the step says.
    pub open spec fn view(self) -> StepModel {
        match self {
            RequestStep::Wait => StepModel::Wait,
            RequestStep::Send(message) => StepModel::Send(message@),
            RequestStep::Finish(Ok(value)) => StepModel::Finish(Ok(value@)),
            RequestStep::Finish(Err(e)) => StepModel::Finish(Err(e@)),
        }
    }
}

/// What to do after an event of a login.
#[derive(Debug, PartialEq, Eq)]
pub enum LoginStep {
    Wait,
    Send(Json),
    Finish(Result<(), AppError>),
}

/// What a step of a login says.
pub enum LoginStepModel {
    Wait,
    Send(JsonModel),
    Finish(Result<(), ErrorModel>),
}

impl LoginStep {
    /// What the step says.
    pub open spec fn view(self) -> LoginStepModel {
        match self {
            LoginStep::Wait => LoginStepModel::Wait,
            LoginStep::Send(message) => LoginStepModel::Send(message@),
            LoginStep::Finish(Ok(_)) => LoginStepModel::Finish(Ok(())),
            LoginStep::Finish(Err(e)) => LoginStepModel::Finish(Err(e@)),
        }
    }
}

/// What is kept of one conversation: the next identifier and the notifications
/// that nobody asked for yet.
#[derive(Debug, PartialEq, Eq)]
pub struct Session {
    pub next_id: u64,
    pub pending: Vec<(String, Json)>,
}

/// What notifications say.
pub open spec fn notes(pending: Seq<(String, Json)>) -> Seq<(Seq<char>, JsonModel)> {
    Seq::new(pending.len(), |i: int| (pending[i].0@, pending[i].1@))
}

/// What an event of a request leads to.
pub open spec fn request_step(
    pending: Seq<(Seq<char>, JsonModel)>,
    id: u64,
    method: Seq<char>,
    event: EventModel,
) -> (Seq<(Seq<char>, JsonModel)>, StepModel) {
    match message_of(event, method) {
        Err(e) => (pending, StepModel::Finish(Err(e))),
        Ok(MessageModel::Response { id: answered, result }) => if answered.unsigned() == Some(id) {
            (
                pending,
                StepModel::Finish(
                    match result {
                        Ok(value) => Ok(value),
                        Err(error) => Err(rpc_failure(method, error)),
                    },
                ),
            )
        } else {
            (pending, StepModel::Wait)
        },
        Ok(MessageModel::Notification { method: about, params }) => (
            shifted(pending, (about, params), MAX_NOTIFICATIONS as int),
            StepModel::Wait,
        ),
        Ok(MessageModel::ServerRequest { id: asked, method: about, params }) => (
            pending,
            StepModel::Send(rejection_model(asked, about)),
        ),
    }
}

/// Whether a notification reports the end of a login.
pub open spec fn completes(note: (Seq<char>, JsonModel), login_id: Seq<char>) -> bool {
    note.0 == "account/login/completed"@ && note.1.text_field("loginId"@) == Some(login_id)
}

/// How a login ended, by the parameters of its notification.
pub open spec fn login_outcome(params: JsonModel) -> Result<(), ErrorModel> {
    if params.flag_field("success"@) == Some(true) {
        Ok(())
    } else {
        Err(
            ErrorModel::Server(
                match params.text_field("error"@) {
                    Some(reason) => redacted(reason),
                    None => "OpenAI 登录未完成"@,
                },
            ),
        )
    }
}

/// What an event of a login leads to.
pub open spec fn login_step(
    pending: Seq<(Seq<char>, JsonModel)>,
    login_id: Seq<char>,
    event: EventModel,
) -> (Seq<(Seq<char>, JsonModel)>, LoginStepModel) {
    match message_of(event, "等待浏览器登录完成"@) {
        Err(e) => (pending, LoginStepModel::Finish(Err(e))),
        Ok(MessageModel::Response { id, result }) => (pending, LoginStepModel::Wait),
        Ok(MessageModel::Notification { method, params }) => if completes(
            (method, params),
            login_id,
        ) {
            (pending, LoginStepModel::Finish(login_outcome(params)))
        } else if method == "account/login/completed"@ {
            (pending, LoginStepModel::Wait)
        } else {
            (
                shifted(pending, (method, params), MAX_NOTIFICATIONS as int),
                LoginStepModel::Wait,
            )
        },
        Ok(MessageModel::ServerRequest { id, method, params }) => (
            pending,
            LoginStepModel::Send(rejection_model(id, method)),
        ),
    }
}

/// The place of the first notification that reports the end of a login.
pub open spec fn completion_place(
    pending: Seq<(Seq<char>, JsonModel)>,
    login_id: Seq<char>,
) -> Option<int>
    decreases pending.len(),
{
    if pending.len() == 0 {
        None
    } else {
        match completion_place(pending.drop_last(), login_id) {
            Some(i) => Some(i),
            None => if completes(pending.last(), login_id) {
                Some(pending.len() - 1)
            } else {
                None
            },
        }
    }
}

fn judge_login(params: &Json) -> (r: Result<(), AppError>)
    ensures
        match r {
            Ok(_) => login_outcome(params@) is Ok,
            Err(e) => login_outcome(params@) == Err::<(), ErrorModel>(e@),
        },
{
    let success = match params.flag_field("success") {
        Some(b) => b,
        None => false,
    };
    if success {
        Ok(())
    } else {
        match params.text_field("error") {
            Some(reason) => Err(AppError::Server(redact(reason.as_str()))),
            None => Err(AppError::Server("OpenAI 登录未完成".to_owned())),
        }
    }
}

fn is_completion(method: &String, params: &Json, login_id: &str) -> (r: bool)
    ensures
        r == completes((method@, params@), login_id@),
{
    if !same_text(method.as_str(), "account/login/completed") {
        return false;
    }
    match params.text_field("loginId") {
        Some(id) => same_text(id.as_str(), login_id),
        None => false,
    }
}

impl Session {
    /// A conversation that has not begun.
    pub fn new() -> (r: Session)
        ensures
            r.next_id == 1,
            r.pending@.len() == 0,
            r.well_formed(),
    {
        Session { next_id: 1, pending: Vec::new() }
    }

    /// Whether no more notifications are kept than may be.
    pub open spec fn well_formed(self) -> bool {
        self.pending@.len() <= MAX_NOTIFICATIONS
    }

    /// Gives a request the next identifier; after the last one they begin anew.
    pub fn begin(&mut self, method: &str, params: Option<Json>) -> (r: (u64, Json))
        ensures
            final(self).next_id == (if old(self).next_id == u64::MAX {
                0
            } else {
                (old(self).next_id + 1) as u64
            }),
            final(self).pending == old(self).pending,
            r.0 == old(self).next_id,
            r.1@ == request_model(old(self).next_id, method@, model_of(params)),
    {
        let id: u64 = self.next_id;
        self.next_id = id.wrapping_add(1);
        (id, request(id, method, params))
    }

    fn push_notification(&mut self, method: String, params: Json)
        requires
            old(self).well_formed(),
        ensures
            final(self).well_formed(),
            final(self).next_id == old(self).next_id,
            notes(final(self).pending@) == shifted(
                notes(old(self).pending@),
                (method@, params@),
                MAX_NOTIFICATIONS as int,
            ),
    {
        let ghost before = notes(self.pending@);
        if self.pending.len() >= MAX_NOTIFICATIONS {
            self.pending.remove(0);
            assert(notes(self.pending@) =~= before.drop_first());
        }
        let ghost rest = notes(self.pending@);
        self.pending.push((method, params));
        assert(notes(self.pending@) =~= rest.push((method@, params@)));
    }

    /// Goes on with a request after an event.
    pub fn advance_request(&mut self, id: u64, method: &str, event: ServerEvent) -> (r: RequestStep)
        requires
            old(self).well_formed(),
        ensures
            final(self).well_formed(),
            final(self).next_id == old(self).next_id,
            (notes(final(self).pending@), r@) == request_step(
                notes(old(self).pending@),
                id,
                method@,
                event@,
            ),
    {
        match next_message(event, method) {
            Err(e) => RequestStep::Finish(Err(e)),
            Ok(IncomingMessage::Response { id: answered, result }) => {
                let same = match answered.as_unsigned() {
                    Some(n) => n == id,
                    None => false,
                };
                if same {
                    match result {
                        Ok(value) => RequestStep::Finish(Ok(value)),
                        Err(error) => RequestStep::Finish(Err(map_rpc_error(method, &error))),
                    }
                } else {
                    RequestStep::Wait
                }
            },
            Ok(IncomingMessage::Notification { method: about, params }) => {
                self.push_notification(about, params);
                RequestStep::Wait
            },
            Ok(IncomingMessage::ServerRequest { id: asked, method: about, params: _ }) => {
                RequestStep::Send(reject_server_request(asked, about.as_str()))
            },
        }
    }

    /// Goes on with waiting for the end of a login after an event.
    pub fn advance_login(&mut self, login_id: &str, event: ServerEvent) -> (r: LoginStep)
        requires
            old(self).well_formed(),
        ensures
            final(self).well_formed(),
            final(self).next_id == old(self).next_id,
            (notes(final(self).pending@), r@) == login_step(
                notes(old(self).pending@),
                login_id@,
                event@,
            ),
    {
        match next_message(event, "等待浏览器登录完成") {
            Err(e) => LoginStep::Finish(Err(e)),
            Ok(IncomingMessage::Response { id: _, result: _ }) => LoginStep::Wait,
            Ok(IncomingMessage::Notification { method, params }) => {
                if is_completion(&method, &params, login_id) {
                    LoginStep::Finish(judge_login(&params))
                } else if same_text(method.as_str(), "account/login/completed") {
                    LoginStep::Wait
                } else {
                    self.push_notification(method, params);
                    LoginStep::Wait
                }
            },
            Ok(IncomingMessage::ServerRequest { id, method, params: _ }) => {
                LoginStep::Send(reject_server_request(id, method.as_str()))
            },
        }
    }

    /// Takes the notification of a login's end out of those that were kept.
    pub fn take_login_completion(&mut self, login_id: &str) -> (r: Option<Result<(), AppError>>)
        requires
            old(self).well_formed(),
        ensures
            final(self).well_formed(),
            final(self).next_id == old(self).next_id,
            match completion_place(notes(old(self).pending@), login_id@) {
                Some(i) => 0 <= i < old(self).pending@.len() && notes(final(self).pending@)
                    == notes(old(self).pending@).remove(i) && match r {
                    Some(Ok(_)) => login_outcome(old(self).pending@[i].1@) is Ok,
                    Some(Err(e)) => login_outcome(old(self).pending@[i].1@)
                        == Err::<(), ErrorModel>(e@),
                    None => false,
                },
                None => r is None && final(self).pending@ == old(self).pending@,
            },
    {
        let ghost all = notes(self.pending@);
        let mut i: usize = 0;
        assert(all.take(0) =~= Seq::empty());
        while i < self.pending.len()
            invariant
                old(self).well_formed(),
                *self == *old(self),
                all == notes(self.pending@),
                i <= self.pending@.len(),
                completion_place(all.take(i as int), login_id@) is None,
            decreases self.pending@.len() - i,
        {
            assert(all.take(i + 1).drop_last() =~= all.take(i as int));
            assert(all.take(i + 1).last() == all[i as int]);
            if is_completion(&self.pending[i].0, &self.pending[i].1, login_id) {
                proof {
                    lemma_first_completion(all, login_id@, i as int);
                }
                let (_, params) = self.pending.remove(i);
                assert(notes(self.pending@) =~= all.remove(i as int));
                return Some(judge_login(&params));
            }
            i = i + 1;
        }
        assert(all.take(i as int) =~= all);
        None
    }
}

proof fn lemma_first_completion(pending: Seq<(Seq<char>, JsonModel)>, login_id: Seq<char>, i: int)
    requires
        0 <= i < pending.len(),
        completion_place(pending.take(i), login_id) is None,
        completes(pending[i], login_id),
    ensures
        completion_place(pending, login_id) == Some(i),
    decreases pending.len(),
{
    if i == pending.len() - 1 {
        assert(pending.drop_last() =~= pending.take(i));
    } else {
        assert(pending.drop_last().take(i) =~= pending.take(i));
        lemma_first_completion(pending.drop_last(), login_id, i);
    }
}

/// However a conversation goes, no more notifications are kept than may be.
pub proof fn lemma_notifications_are_bounded(
    pending: Seq<(Seq<char>, JsonModel)>,
    id: u64,
    method: Seq<char>,
    login_id: Seq<char>,
    event: EventModel,
)
    requires
        pending.len() <= MAX_NOTIFICATIONS,
    ensures
        request_step(pending, id, method, event).0.len() <= MAX_NOTIFICATIONS,
        login_step(pending, login_id, event).0.len() <= MAX_NOTIFICATIONS,
{
}

/// A request ends with a value only on a response to its own identifier.
pub proof fn lemma_only_the_own_response_answers(
    pending: Seq<(Seq<char>, JsonModel)>,
    id: u64,
    method: Seq<char>,
    event: EventModel,
)
    requires
        request_step(pending, id, method, event).1 matches StepModel::Finish(Ok(_)),
    ensures
        message_of(event, method) matches Ok(MessageModel::Response { id: answered, result })
            && answered.unsigned() == Some(id) && result is Ok,
{
}

/// The identity that a reply to `account/read` gives, or the error that it means.
pub open spec fn identity_in(result: JsonModel) -> Result<IdentityModel, ErrorModel> {
    match result.field("account"@) {
        None => Err(ErrorModel::NotLoggedIn),
        Some(JsonModel::Null) => Err(ErrorModel::NotLoggedIn),
        Some(account) => if account.text_field("type"@) != Some("chatgpt"@) {
            Err(
                ErrorModel::Server(
                    "当前 Codex 登录不是 ChatGPT 订阅账号，无法查询 ChatGPT Codex 限额"@,
                ),
            )
        } else {
            Ok(
                IdentityModel {
                    account_id: None,
                    email: account.text_field("email"@),
                    masked_email: match account.text_field("email"@) {
                        Some(email) => Some(masked(email, 2)),
                        None => None,
                    },
                    plan_type: account.text_field("planType"@),
                },
            )
        },
    }
}

/// Reads the identity out of a reply to `account/read`.
pub fn parse_account_identity(result: &Json) -> (r: Result<AccountIdentity, AppError>)
    ensures
        match r {
            Ok(identity) => identity_in(result@) == Ok::<IdentityModel, ErrorModel>(identity@),
            Err(e) => identity_in(result@) == Err::<IdentityModel, ErrorModel>(e@),
        },
{
    let account = match result.get("account") {
        Some(account) => account,
        None => {
            return Err(AppError::NotLoggedIn);
        },
    };
    if account.is_null() {
        return Err(AppError::NotLoggedIn);
    }
    let subscribed = match account.text_field("type") {
        Some(kind) => same_text(kind.as_str(), "chatgpt"),
        None => false,
    };
    if !subscribed {
        return Err(
            AppError::Server(
                "当前 Codex 登录不是 ChatGPT 订阅账号，无法查询 ChatGPT Codex 限额".to_owned(),
            ),
        );
    }
    let email = account.text_field("email");
    let masked_email = match &email {
        Some(email) => Some(mask_address(email.as_str(), 2)),
        None => None,
    };
    Ok(
        AccountIdentity {
            account_id: None,
            email,
            masked_email,
            plan_type: account.text_field("planType"),
        },
    )
}

/// The text of a field that a login needs.
pub open spec fn required_text(value: JsonModel, field: Seq<char>) -> Result<Seq<char>, ErrorModel> {
    match value.text_field(field) {
        Some(s) if s.len() > 0 => Ok(s),
        _ => Err(ErrorModel::ProtocolIncompatible("登录响应缺少字段 "@ + field)),
    }
}

fn required_string(value: &Json, field: &str) -> (r: Result<String, AppError>)
    ensures
        match r {
            Ok(s) => required_text(value@, field@) == Ok::<Seq<char>, ErrorModel>(s@),
            Err(e) => required_text(value@, field@) == Err::<Seq<char>, ErrorModel>(e@),
        },
{
    if let Some(s) = value.text_field(field) {
        if !s.as_str().is_empty() {
            return Ok(s);
        }
    }
    let mut detail = "登录响应缺少字段 ".to_owned();
    detail.append(field);
    Err(AppError::ProtocolIncompatible(detail))
}

/// What `url::Url::parse` finds in an address: the scheme and the host, or the
/// words of its error.
pub uninterp spec fn address_parts(raw: Seq<char>) -> Result<
    (Seq<char>, Option<Seq<char>>),
    Seq<char>,
>;

/// What the parts of an address say.
pub open spec fn parts_model(parts: Result<(String, Option<String>), String>) -> Result<
    (Seq<char>, Option<Seq<char>>),
    Seq<char>,
> {
    match parts {
        Ok((scheme, host)) => Ok((scheme@, text_of(host))),
        Err(words) => Err(words@),
    }
}

/// `url::Url::parse`, and of the address its `scheme` and its `host_str`.
#[verifier::external_body]
fn parse_address(raw: &str) -> (r: Result<(String, Option<String>), String>)
    ensures
        parts_model(r) == address_parts(raw@),
{
    match url::Url::parse(raw) {
        Ok(url) => Ok((url.scheme().to_owned(), url.host_str().map(str::to_owned))),
        Err(error) => Err(error.to_string()),
    }
}

/// Whether an address with this scheme and host belongs to the official site.
pub open spec fn is_official(scheme: Seq<char>, host: Option<Seq<char>>) -> bool {
    scheme == "https"@ && (host matches Some(h) && (h == "chatgpt.com"@ || h == "auth.openai.com"@
        || h == "openai.com"@ || ends(h, ".openai.com"@)))
}

/// Whether an address with this scheme and host belongs to the official site.
pub fn is_official_address(scheme: &str, host: &Option<String>) -> (r: bool)
    ensures
        r == is_official(scheme@, text_of(*host)),
{
    match host {
        Some(host) => {
            let host = host.as_str();
            same_text(scheme, "https") && (same_text(host, "chatgpt.com") || same_text(
                host,
                "auth.openai.com",
            ) || same_text(host, "openai.com") || ends_with_text(host, ".openai.com"))
        },
        None => false,
    }
}

/// Why an address is not opened, or nothing where it is official.
pub open spec fn address_fault(parts: Result<(Seq<char>, Option<Seq<char>>), Seq<char>>) -> Option<
    ErrorModel,
> {
    match parts {
        Err(words) => Some(ErrorModel::InvalidResponse("登录地址无效："@ + words)),
        Ok((scheme, host)) => if is_official(scheme, host) {
            None
        } else {
            Some(
                ErrorModel::InvalidResponse("Codex 返回了非 OpenAI 官方 HTTPS 登录地址"@),
            )
        },
    }
}

/// Refuses an address of other than the official site.
pub fn validate_official_login_url(raw: &str) -> (r: Result<(), AppError>)
    ensures
        match r {
            Ok(_) => address_fault(address_parts(raw@)) is None,
            Err(e) => address_fault(address_parts(raw@)) == Some(e@),
        },
{
    match parse_address(raw) {
        Err(words) => {
            let mut detail = "登录地址无效：".to_owned();
            detail.append(words.as_str());
            Err(AppError::InvalidResponse(detail))
        },
        Ok((scheme, host)) => if is_official_address(scheme.as_str(), &host) {
            Ok(())
        } else {
            Err(
                AppError::InvalidResponse(
                    "Codex 返回了非 OpenAI 官方 HTTPS 登录地址".to_owned(),
                ),
            )
        },
    }
}

/// What a challenge says.
pub struct ChallengeModel {
    pub login_id: Seq<char>,
    pub url: Seq<char>,
    pub user_code: Option<Seq<char>>,
    pub device_code: bool,
}

/// What a challenge says.
pub open spec fn challenge_model(challenge: LoginChallenge) -> ChallengeModel {
    ChallengeModel {
        login_id: challenge.login_id@,
        url: challenge.url@,
        user_code: text_of(challenge.user_code),
        device_code: challenge.device_code,
    }
}

/// The fields of a challenge in a reply to `account/login/start`, whatever its
/// address, or the first that is missing.
pub open spec fn challenge_fields(result: JsonModel, device_code: bool) -> Result<
    ChallengeModel,
    ErrorModel,
> {
    match required_text(result, "loginId"@) {
        Err(e) => Err(e),
        Ok(login_id) => if device_code {
            match required_text(result, "verificationUrl"@) {
                Err(e) => Err(e),
                Ok(url) => match required_text(result, "userCode"@) {
                    Err(e) => Err(e),
                    Ok(code) => Ok(
                        ChallengeModel { login_id, url, user_code: Some(code), device_code },
                    ),
                },
            }
        } else {
            match required_text(result, "authUrl"@) {
                Err(e) => Err(e),
                Ok(url) => Ok(ChallengeModel { login_id, url, user_code: None, device_code }),
            }
        },
    }
}

/// The challenge in a reply to `account/login/start`, or the error that it means.
pub open spec fn challenge_in(result: JsonModel, device_code: bool) -> Result<
    ChallengeModel,
    ErrorModel,
> {
    match challenge_fields(result, device_code) {
        Err(e) => Err(e),
        Ok(challenge) => match address_fault(address_parts(challenge.url)) {
            Some(e) => Err(e),
            None => Ok(challenge),
        },
    }
}

/// The page of every challenge that is accepted has a secure address of the
/// official site.
pub proof fn lemma_challenge_is_official(result: JsonModel, device_code: bool)
    requires
        challenge_in(result, device_code) is Ok,
    ensures
        address_parts((challenge_in(result, device_code)->Ok_0).url) matches Ok((scheme, host))
            && is_official(scheme, host) && scheme == "https"@,
{
}

/// Reads the fields of a challenge, whatever its address.
pub fn parse_challenge_fields(result: &Json, device_code: bool) -> (r: Result<
    LoginChallenge,
    AppError,
>)
    ensures
        match r {
            Ok(c) => challenge_fields(result@, device_code) == Ok::<ChallengeModel, ErrorModel>(
                challenge_model(c),
            ),
            Err(e) => challenge_fields(result@, device_code) == Err::<ChallengeModel, ErrorModel>(
                e@,
            ),
        },
{
    let login_id = match required_string(result, "loginId") {
        Ok(s) => s,
        Err(e) => {
            return Err(e);
        },
    };
    if device_code {
        let url = match required_string(result, "verificationUrl") {
            Ok(s) => s,
            Err(e) => {
                return Err(e);
            },
        };
        match required_string(result, "userCode") {
            Ok(code) => Ok(LoginChallenge { login_id, url, user_code: Some(code), device_code }),
            Err(e) => Err(e),
        }
    } else {
        match required_string(result, "authUrl") {
            Ok(url) => Ok(LoginChallenge { login_id, url, user_code: None, device_code }),
            Err(e) => Err(e),
        }
    }
}

/// Reads the challenge out of a reply to `account/login/start`.
pub fn parse_login_challenge(result: &Json, device_code: bool) -> (r: Result<
    LoginChallenge,
    AppError,
>)
    ensures
        match r {
            Ok(c) => challenge_in(result@, device_code) == Ok::<ChallengeModel, ErrorModel>(
                challenge_model(c),
            ),
            Err(e) => challenge_in(result@, device_code) == Err::<ChallengeModel, ErrorModel>(e@),
        },
{
    match parse_challenge_fields(result, device_code) {
        Ok(challenge) => match validate_official_login_url(challenge.url.as_str()) {
            Ok(_) => Ok(challenge),
            Err(e) => Err(e),
        },
        Err(e) => Err(e),
    }
}

/// The parameters of the request that begins a login.
pub open spec fn login_params_model(device_code: bool) -> JsonModel {
    if device_code {
        JsonModel::Object(seq![("type"@, JsonModel::Text("chatgptDeviceCode"@))])
    } else {
        JsonModel::Object(
            seq![
                ("appBrand"@, JsonModel::Text("codex"@)),
                ("type"@, JsonModel::Text("chatgpt"@)),
                ("useHostedLoginSuccessPage"@, JsonModel::Bool(true)),
            ],
        )
    }
}

/// Makes the parameters of the request that begins a login.
pub fn login_params(device_code: bool) -> (r: Json)
    ensures
        r@ == login_params_model(device_code),
{
    if device_code {
        let r = Json::empty_object().with("type", Json::text("chatgptDeviceCode"));
        assert(r@->Object_0 =~= login_params_model(device_code)->Object_0);
        r
    } else {
        let r = Json::empty_object().with("appBrand", Json::text("codex")).with(
            "type",
            Json::text("chatgpt"),
        ).with("useHostedLoginSuccessPage", Json::Bool(true));
        assert(r@->Object_0 =~= login_params_model(device_code)->Object_0);
        r
    }
}

/// Makes the parameters of the request that calls a login off.
pub fn cancel_login_params(login_id: &str) -> (r: Json)
    ensures
        r@ == JsonModel::Object(seq![("loginId"@, JsonModel::Text(login_id@))]),
{
    let r = Json::empty_object().with("loginId", Json::text(login_id));
    assert(r@->Object_0 =~= seq![("loginId"@, JsonModel::Text(login_id@))]);
    r
}

/// The notifications that the service need not send.
pub open spec fn unwanted_notifications() -> Seq<JsonModel> {
    seq![
        JsonModel::Text("thread/started"@),
        JsonModel::Text("turn/started"@),
        JsonModel::Text("item/started"@),
        JsonModel::Text("item/completed"@),
    ]
}

/// The parameters of the first request of a conversation.
pub open spec fn initialize_params_model(version: Seq<char>) -> JsonModel {
    JsonModel::Object(
        seq![
            (
                "capabilities"@,
                JsonModel::Object(
                    seq![
                        (
                            "optOutNotificationMethods"@,
                            JsonModel::List(unwanted_notifications()),
                        ),
                    ],
                ),
            ),
            (
                "clientInfo"@,
                JsonModel::Object(
                    seq![
                        ("name"@, JsonModel::Text("codex_usage_monitor"@)),
                        ("title"@, JsonModel::Text("Codex Usage Monitor"@)),
                        ("version"@, JsonModel::Text(version)),
                    ],
                ),
            ),
        ],
    )
}

/// Makes the parameters of the first request of a conversation.
pub fn initialize_params(version: &str) -> (r: Json)
    ensures
        r@ == initialize_params_model(version@),
{
    let methods = Json::List(
        vec![
            Json::text("thread/started"),
            Json::text("turn/started"),
            Json::text("item/started"),
            Json::text("item/completed"),
        ],
    );
    assert(methods@->List_0 =~= unwanted_notifications());
    let capabilities = Json::empty_object().with("optOutNotificationMethods", methods);
    assert(capabilities@->Object_0 =~= seq![
        ("optOutNotificationMethods"@, JsonModel::List(unwanted_notifications())),
    ]);
    let client = Json::empty_object().with("name", Json::text("codex_usage_monitor")).with(
        "title",
        Json::text("Codex Usage Monitor"),
    ).with("version", Json::text(version));
    assert(client@->Object_0 =~= seq![
        ("name"@, JsonModel::Text("codex_usage_monitor"@)),
        ("title"@, JsonModel::Text("Codex Usage Monitor"@)),
        ("version"@, JsonModel::Text(version@)),
    ]);
    let r = Json::empty_object().with("capabilities", capabilities).with("clientInfo", client);
    assert(r@->Object_0 =~= seq![("capabilities"@, capabilities@), ("clientInfo"@, client@)]);
    r
}

/// Makes the notification that ends the first exchange of a conversation.
pub fn initialized() -> (r: Json)
    ensures
        r@ == notification_model("initialized"@, None),
{
    notification("initialized", None)
}

/// What is asked of the service, and how long it may take where that is special.
#[derive(Debug, PartialEq, Eq)]
pub struct Ask {
    pub method: &'static str,
    pub params: Option<Json>,
    pub timeout_millis: Option<u64>,
}

/// The parameters of every request ascend, so that each request is written as it
/// is made.
pub proof fn lemma_params_are_settled(version: Seq<char>, device_code: bool, login_id: Seq<char>)
    ensures
        is_settled(initialize_params_model(version)),
        is_settled(login_params_model(device_code)),
        is_settled(JsonModel::Object(seq![("loginId"@, JsonModel::Text(login_id))])),
        is_settled(account_params_model()),
{
    reveal_strlit("capabilities");
    reveal_strlit("clientInfo");
    reveal_strlit("name");
    reveal_strlit("title");
    reveal_strlit("version");
    reveal_strlit("appBrand");
    reveal_strlit("type");
    reveal_strlit("useHostedLoginSuccessPage");
    reveal_with_fuel(sorts_before, 2);
    let first = initialize_params_model(version)->Object_0;
    let inner = first[0].1->Object_0;
    let methods = inner[0].1;
    assert forall|i: int| 0 <= i < methods->List_0.len() implies is_settled(
        #[trigger] methods->List_0[i],
    ) by {
        assert(methods->List_0[i] is Text);
    }
    assert(is_settled(methods));
    assert(names_ascend(inner));
    assert forall|i: int| 0 <= i < inner.len() implies is_settled((#[trigger] inner[i]).1) by {}
    assert(is_settled(first[0].1));
    lemma_plain_fields_are_settled(first[1].1->Object_0);
    assert(names_ascend(first));
    assert forall|i: int| 0 <= i < first.len() implies is_settled((#[trigger] first[i]).1) by {}
    lemma_plain_fields_are_settled(login_params_model(device_code)->Object_0);
    lemma_plain_fields_are_settled(seq![("loginId"@, JsonModel::Text(login_id))]);
    lemma_plain_fields_are_settled(account_params_model()->Object_0);
}

/// Fields that ascend and hold neither lists nor objects make a settled object.
proof fn lemma_plain_fields_are_settled(fields: Seq<(Seq<char>, JsonModel)>)
    requires
        names_ascend(fields),
        forall|i: int|
            0 <= i < fields.len() ==> !((#[trigger] fields[i]).1 is List) && !(fields[i].1 is Object),
    ensures
        is_settled(JsonModel::Object(fields)),
{
    let object = JsonModel::Object(fields);
    assert forall|i: int| 0 <= i < fields.len() implies is_settled((#[trigger] fields[i]).1) by {
        assert(!(fields[i].1 is List));
    }
    assert(object->Object_0 == fields);
}

/// What is known so far of a query.
#[derive(Debug, PartialEq, Eq)]
pub enum QueryStage {
    Account,
    Limits { identity: AccountIdentity },
    Usage { identity: AccountIdentity, quota: crate::rate_limits::QuotaSnapshot },
}

/// What a query does next.
#[derive(Debug, PartialEq, Eq)]
pub enum QueryStep {
    Ask(QueryStage),
    Finish(Result<CachedAccountData, AppError>),
}

/// The parameters of a request that reads the account.
pub open spec fn account_params_model() -> JsonModel {
    JsonModel::Object(seq![("refreshToken"@, JsonModel::Bool(false))])
}

impl QueryStage {
    /// What a query asks at this stage.
    pub fn ask(&self) -> (r: Ask)
        ensures
            match self {
                QueryStage::Account => r.method@ == "account/read"@ && model_of(r.params) == Some(
                    account_params_model(),
                ) && r.timeout_millis is None,
                QueryStage::Limits { identity } => r.method@ == "account/rateLimits/read"@
                    && r.params is None && r.timeout_millis is None,
                QueryStage::Usage { identity, quota } => r.method@ == "account/usage/read"@
                    && r.params is None && r.timeout_millis == Some(5_000u64),
            },
    {
        match self {
            QueryStage::Account => {
                let params = Json::empty_object().with("refreshToken", Json::Bool(false));
                assert(params@->Object_0 =~= account_params_model()->Object_0);
                Ask { method: "account/read", params: Some(params), timeout_millis: None }
            },
            QueryStage::Limits { identity: _ } => Ask {
                method: "account/rateLimits/read",
                params: None,
                timeout_millis: None,
            },
            QueryStage::Usage { identity: _, quota: _ } => Ask {
                method: "account/usage/read",
                params: None,
                timeout_millis: Some(USAGE_TIMEOUT_MILLIS),
            },
        }
    }

    /// Goes on with a query after a reply. The report of token activity is
    /// optional: without it the limits still count.
    pub fn advance(self, reply: Result<Json, AppError>, now: Timestamp) -> (r: QueryStep)
        ensures
            match (self, reply) {
                (QueryStage::Account, Ok(value)) => match identity_in(value@) {
                    Ok(identity) => r matches QueryStep::Ask(QueryStage::Limits { identity: known })
                        && known@ == identity,
                    Err(e) => r matches QueryStep::Finish(Err(error)) && error@ == e,
                },
                (QueryStage::Limits { identity }, Ok(value)) => match snapshot_in(value@, now) {
                    Some(snapshot) => r matches QueryStep::Ask(
                        QueryStage::Usage { identity: known, quota },
                    ) && known == identity && quota@ == snapshot,
                    None => r matches QueryStep::Finish(Err(error)) && error@
                        == ErrorModel::ProtocolIncompatible(
                        "响应缺少 rateLimits 和 rateLimitsByLimitId"@,
                    ),
                },
                (QueryStage::Usage { identity, quota }, Ok(value)) => r matches QueryStep::Finish(
                    Ok(data),
                ) && data.identity == identity && data.quota@ == (SnapshotModel {
                    token_usage: usage_in(value@),
                    ..quota@
                }),
                (QueryStage::Usage { identity, quota }, Err(_)) => r matches QueryStep::Finish(
                    Ok(data),
                ) && data.identity == identity && data.quota == quota,
                (_, Err(e)) => r matches QueryStep::Finish(Err(error)) && error == e,
            },
    {
        match self {
            QueryStage::Account => match reply {
                Ok(value) => match parse_account_identity(&value) {
                    Ok(identity) => QueryStep::Ask(QueryStage::Limits { identity }),
                    Err(e) => QueryStep::Finish(Err(e)),
                },
                Err(e) => QueryStep::Finish(Err(e)),
            },
            QueryStage::Limits { identity } => match reply {
                Ok(value) => match parse_rate_limits(&value, now) {
                    Ok(quota) => QueryStep::Ask(QueryStage::Usage { identity, quota }),
                    Err(e) => QueryStep::Finish(Err(e)),
                },
                Err(e) => QueryStep::Finish(Err(e)),
            },
            QueryStage::Usage { identity, quota } => {
                let mut quota = quota;
                if let Ok(value) = reply {
                    quota.token_usage = parse_token_usage(&value);
                }
                QueryStep::Finish(Ok(CachedAccountData { identity, quota }))
            },
        }
    }
}

/// The error of a query with the service's last diagnostic lines where it ended
/// without a word.
pub open spec fn with_diagnosis(error: ErrorModel, diagnostic: Seq<char>) -> ErrorModel {
    match error {
        ErrorModel::ProcessExited(message) if message.len() == 0 => ErrorModel::ProcessExited(
            diagnostic,
        ),
        other => other,
    }
}

/// Adds the service's last diagnostic lines to an error without a word.
pub fn append_process_diagnostic(error: AppError, diagnostic: String) -> (r: AppError)
    ensures
        r@ == with_diagnosis(error@, diagnostic@),
{
    match error {
        AppError::ProcessExited(message) => if message.as_str().is_empty() {
            proof {
                if diagnostic@.len() == 0 {
                    assert(diagnostic@ =~= message@);
                }
            }
            AppError::ProcessExited(diagnostic)
        } else {
            AppError::ProcessExited(message)
        },
        other => other,
    }
}

/// Of a list that is kept short the latest items stay, in order: one more is at the
/// end, and only the first goes, and only where the list was full.
pub proof fn lemma_latest_items_stay<T>(list: Seq<T>, item: T, limit: int)
    requires
        0 < limit,
        list.len() <= limit,
    ensures
        list.len() < limit ==> shifted(list, item, limit).len() == list.len() + 1,
        list.len() == limit ==> shifted(list, item, limit).len() == limit,
        shifted(list, item, limit).last() == item,
        list.len() < limit ==> forall|i: int|
            0 <= i < list.len() ==> shifted(list, item, limit)[i] == #[trigger] list[i],
        list.len() == limit ==> forall|i: int|
            1 <= i < list.len() ==> shifted(list, item, limit)[i - 1] == #[trigger] list[i],
{
}

/// Only a line brings a message; giving up, the end of the time, a failure and the
/// end of the service are each told as what they are.
pub proof fn lemma_events_are_told_apart(line: Seq<char>, words: Seq<char>, exchange: Seq<char>)
    ensures
        message_of(EventModel::Line(line), exchange) == line_reading(line),
        message_of(EventModel::Cancelled, exchange) == Err::<MessageModel, ErrorModel>(
            ErrorModel::Cancelled,
        ),
        message_of(EventModel::Expired, exchange) == Err::<MessageModel, ErrorModel>(
            ErrorModel::Timeout(exchange),
        ),
        message_of(EventModel::Silent, exchange) matches Err(ErrorModel::Timeout(_)),
        message_of(EventModel::Failed(words), exchange) == Err::<MessageModel, ErrorModel>(
            ErrorModel::Io(words),
        ),
        message_of(EventModel::Closed(words), exchange) == Err::<MessageModel, ErrorModel>(
            ErrorModel::ProcessExited(words),
        ),
{
}

/// Whether a refusal of the service says that nobody is logged in.
pub open spec fn says_logged_out(words: Seq<char>) -> bool {
    holds(lowered(words), "authentication required"@) || holds(lowered(words), "not logged"@)
        || holds(lowered(words), "unauthorized"@)
}

/// A refusal means that nobody is logged in where it says so, else that the service
/// does not know the method where its number or its words say so, and else a fault
/// of the service; of its words only what redaction leaves is told.
pub proof fn lemma_refusals_are_told_apart(method: Seq<char>, error: RpcErrorModel)
    ensures
        rpc_failure(method, error) is NotLoggedIn <==> says_logged_out(redacted(error.message)),
        rpc_failure(method, error) is ProtocolIncompatible <==> !says_logged_out(
            redacted(error.message),
        ) && (error.code == Some(-32601i64) || holds(
            lowered(redacted(error.message)),
            "method not found"@,
        )),
        rpc_failure(method, error) is NotLoggedIn || rpc_failure(method, error) is ProtocolIncompatible
            || rpc_failure(method, error) is Server,
        rpc_failure(method, error) matches ErrorModel::ProtocolIncompatible(words) ==> begins(
            words,
            method,
        ) && ends(words, redacted(error.message)),
        rpc_failure(method, error) matches ErrorModel::Server(words) ==> begins(words, method) && ends(
            words,
            redacted(error.message),
        ),
{
    let safe = redacted(error.message);
    let words = method + "："@ + safe;
    assert(words.subrange(0, method.len() as int) =~= method);
    assert(words.subrange(words.len() - safe.len(), words.len() as int) =~= safe);
}

/// A request of the service is refused under the identifier that it came with, as
/// one of an unknown method, and with its name.
pub proof fn lemma_requests_are_refused(id: JsonModel, method: Seq<char>)
    ensures
        rejection_model(id, method).field("id"@) == Some(id),
        rejection_model(id, method).field("result"@) is None,
        rejection_model(id, method).field("error"@) matches Some(error) && error.signed_field(
            "code"@,
        ) == Some(-32601i64) && (error.text_field("message"@) matches Some(words) && ends(
            words,
            method,
        )),
{
    reveal_with_fuel(lookup, 4);
    reveal_strlit("error");
    reveal_strlit("id");
    reveal_strlit("result");
    reveal_strlit("code");
    reveal_strlit("message");
    assert("error"@.len() == 5 && "id"@.len() == 2 && "result"@.len() == 6);
    assert("code"@.len() == 4 && "message"@.len() == 7);
    let made = rejection_model(id, method)->Object_0;
    assert(made.drop_first()[0] == made[1]);
    let inner = made[0].1->Object_0;
    assert(inner.drop_first()[0] == inner[1]);
    let words = "Codex Usage Monitor does not handle server request "@ + method;
    assert(words.subrange(words.len() - method.len(), words.len() as int) =~= method);
}

/// A request ends with what the response to it says, and with the error that an
/// event means; other responses are passed over, notifications are kept for later,
/// and requests of the service are refused.
pub proof fn lemma_requests_go_on(
    pending: Seq<(Seq<char>, JsonModel)>,
    id: u64,
    method: Seq<char>,
    event: EventModel,
)
    ensures
        ({
            let step = request_step(pending, id, method, event);
            &&& message_of(event, method) matches Err(e) ==> step == (
                pending,
                StepModel::Finish(Err::<JsonModel, ErrorModel>(e)),
            )
            &&& message_of(event, method) matches Ok(MessageModel::Response { id: answered, result })
                ==> {
                &&& step.0 == pending
                &&& answered.unsigned() != Some(id) ==> step.1 is Wait
                &&& answered.unsigned() == Some(id) ==> (result matches Ok(value) ==> step.1
                    == StepModel::Finish(Ok::<JsonModel, ErrorModel>(value))) && (
                result matches Err(error) ==> step.1 == StepModel::Finish(
                    Err::<JsonModel, ErrorModel>(rpc_failure(method, error)),
                ))
            }
            &&& message_of(event, method) matches Ok(MessageModel::Notification {
                method: about,
                params,
            }) ==> step.1 is Wait && step.0.last() == (about, params) && step.0.len() > 0 && (
            pending.len() < 100 ==> step.0.drop_last() == pending)
            &&& message_of(event, method) matches Ok(MessageModel::ServerRequest {
                id: asked,
                method: about,
                params,
            }) ==> step == (pending, StepModel::Send(rejection_model(asked, about)))
        }),
{
    let step = request_step(pending, id, method, event);
    if let Ok(MessageModel::Notification { method: about, params }) = message_of(event, method) {
        if pending.len() < 100 {
            assert(step.0.drop_last() =~= pending);
        }
    }
}

/// A login ends with the notification of its own end, and by its flag: with success
/// where that says so and only there. The end of another login is passed over, other
/// notifications are kept for later, and what else comes does not end it.
pub proof fn lemma_logins_go_on(
    pending: Seq<(Seq<char>, JsonModel)>,
    login_id: Seq<char>,
    event: EventModel,
)
    ensures
        ({
            let step = login_step(pending, login_id, event);
            let message = message_of(event, "等待浏览器登录完成"@);
            &&& message matches Err(e) ==> step == (
                pending,
                LoginStepModel::Finish(Err::<(), ErrorModel>(e)),
            )
            &&& message matches Ok(MessageModel::Response { id, result }) ==> step == (
                pending,
                LoginStepModel::Wait,
            )
            &&& message matches Ok(MessageModel::ServerRequest { id, method, params }) ==> step == (
                pending,
                LoginStepModel::Send(rejection_model(id, method)),
            )
            &&& message matches Ok(MessageModel::Notification { method, params }) ==> {
                let ended = method == "account/login/completed"@;
                let own = params.text_field("loginId"@) == Some(login_id);
                &&& ended && own ==> step.0 == pending && (step.1 matches LoginStepModel::Finish(
                    outcome,
                ) && (outcome is Ok <==> params.flag_field("success"@) == Some(true)))
                &&& ended && !own ==> step == (pending, LoginStepModel::Wait)
                &&& !ended ==> step.1 is Wait && step.0.len() > 0 && step.0.last() == (method, params)
            }
        }),
{
}

/// A login that did not succeed is told with what redaction leaves of the reason,
/// where one is given.
pub proof fn lemma_login_outcome(params: JsonModel)
    ensures
        login_outcome(params) is Ok <==> params.flag_field("success"@) == Some(true),
        login_outcome(params) matches Err(e) ==> (e matches ErrorModel::Server(words) && (
        params.text_field("error"@) matches Some(reason) ==> words == redacted(reason))),
{
}

/// The end of a login that came before it was waited for is found: the first one of
/// that login, and nothing else.
pub proof fn lemma_completion_is_found(
    pending: Seq<(Seq<char>, JsonModel)>,
    login_id: Seq<char>,
)
    ensures
        match completion_place(pending, login_id) {
            Some(i) => {
                &&& 0 <= i < pending.len()
                &&& pending[i].0 == "account/login/completed"@
                &&& pending[i].1.text_field("loginId"@) == Some(login_id)
                &&& forall|j: int|
                    0 <= j < i ==> (#[trigger] pending[j]).0 != "account/login/completed"@
                        || pending[j].1.text_field("loginId"@) != Some(login_id)
            },
            None => forall|j: int|
                0 <= j < pending.len() ==> (#[trigger] pending[j]).0 != "account/login/completed"@
                    || pending[j].1.text_field("loginId"@) != Some(login_id),
        },
    decreases pending.len(),
{
    if pending.len() > 0 {
        let front = pending.drop_last();
        lemma_completion_is_found(front, login_id);
        assert forall|j: int| 0 <= j < front.len() implies #[trigger] pending[j] == front[j] by {}
    }
}

/// A reply tells an account exactly if it has one of a subscription; the address and
/// the plan are those that it states, the masked address hides the stated one, and
/// no identifier is taken from it.
pub proof fn lemma_account_is_read(result: JsonModel)
    ensures
        identity_in(result) is Ok <==> (result.field("account"@) matches Some(account)
            && account.text_field("type"@) == Some("chatgpt"@)),
        result.field("account"@) is None || result.field("account"@) == Some(JsonModel::Null)
            ==> identity_in(result) == Err::<IdentityModel, ErrorModel>(ErrorModel::NotLoggedIn),
        result.field("account"@) matches Some(account) ==> !(account is Null)
            && account.text_field("type"@) != Some("chatgpt"@) ==> (identity_in(result) matches Err(
            ErrorModel::Server(_),
        )),
        identity_in(result) matches Ok(identity) ==> {
            let account = result.field("account"@)->0;
            &&& identity.account_id is None
            &&& identity.email == account.text_field("email"@)
            &&& identity.plan_type == account.text_field("planType"@)
            &&& identity.email is None ==> identity.masked_email is None
            &&& identity.email matches Some(email) ==> identity.masked_email == Some(
                masked(email, 2),
            )
        },
{
}

/// A challenge is accepted exactly if its fields are there and not empty and its
/// page is official: for a login in the browser the address for that, for one by
/// device code the address for that and the code.
pub proof fn lemma_challenge_is_read(result: JsonModel, device_code: bool)
    ensures
        ({
            let field = if device_code {
                "verificationUrl"@
            } else {
                "authUrl"@
            };
            let id = result.text_field("loginId"@);
            let url = result.text_field(field);
            let code = result.text_field("userCode"@);
            &&& challenge_fields(result, device_code) is Ok <==> (id matches Some(i) && i.len() > 0)
                && (url matches Some(u) && u.len() > 0) && (device_code ==> (code matches Some(c)
                && c.len() > 0))
            &&& challenge_fields(result, device_code) matches Ok(challenge) ==> Some(
                challenge.login_id,
            ) == id && Some(challenge.url) == url && challenge.device_code == device_code
                && challenge.user_code == (if device_code {
                code
            } else {
                None
            })
            &&& challenge_in(result, device_code) is Ok <==> (challenge_fields(
                result,
                device_code,
            ) matches Ok(challenge) && address_fault(address_parts(challenge.url)) is None)
            &&& challenge_in(result, device_code) is Ok ==> challenge_in(result, device_code)
                == challenge_fields(result, device_code)
        }),
{
}

/// A page is official exactly if its address is secure and its host is one of the
/// two sites or lies below the one: a host that only looks like it does not.
pub proof fn lemma_official_hosts(scheme: Seq<char>, host: Seq<char>, below: Seq<char>)
    ensures
        is_official(scheme, None) == false,
        scheme != "https"@ ==> !is_official(scheme, Some(host)),
        is_official("https"@, Some("chatgpt.com"@)),
        is_official("https"@, Some("openai.com"@)),
        is_official("https"@, Some(below + ".openai.com"@)),
        is_official(scheme, Some(host)) ==> host == "chatgpt.com"@ || host == "openai.com"@ || (
        host.len() >= ".openai.com"@.len() && host == host.take(
            host.len() - ".openai.com"@.len(),
        ) + ".openai.com"@),
        address_fault(Ok((scheme, Some(host)))) is None <==> is_official(scheme, Some(host)),
        forall|words: Seq<char>| address_fault(#[trigger] unread_address(words)) is Some,
{
    reveal_strlit("auth.openai.com");
    reveal_strlit(".openai.com");
    let tail = ".openai.com"@;
    let n = tail.len() as int;
    let whole = below + tail;
    assert(whole.subrange(whole.len() - n, whole.len() as int) =~= tail);
    if is_official(scheme, Some(host)) && host != "chatgpt.com"@ && host != "openai.com"@ {
        if host == "auth.openai.com"@ {
            assert(host.subrange(host.len() - n, host.len() as int) =~= tail);
        }
        assert(host.subrange(host.len() - n, host.len() as int) == tail);
        assert(host =~= host.take(host.len() - n) + tail);
    }
}

/// An address that could not be read, with the words of the error.
pub open spec fn unread_address(words: Seq<char>) -> Result<
    (Seq<char>, Option<Seq<char>>),
    Seq<char>,
> {
    Err(words)
}

/// Only an end of the service without a word gets its last lines; every other error
/// stays as it is.
pub proof fn lemma_diagnosis_is_added(error: ErrorModel, diagnostic: Seq<char>)
    ensures
        error == ErrorModel::ProcessExited(Seq::empty()) ==> with_diagnosis(error, diagnostic)
            == ErrorModel::ProcessExited(diagnostic),
        !(error is ProcessExited) ==> with_diagnosis(error, diagnostic) == error,
        error matches ErrorModel::ProcessExited(words) ==> words.len() > 0 ==> with_diagnosis(
            error,
            diagnostic,
        ) == error,
{
}

/// What is asked says what it is for: a login by device code or in the browser, a
/// reading of the account that leaves its tokens as they are, and a conversation of
/// this application in its version.
pub proof fn lemma_params_say_what_is_asked(version: Seq<char>)
    ensures
        login_params_model(true).text_field("type"@) == Some("chatgptDeviceCode"@),
        login_params_model(false).text_field("type"@) == Some("chatgpt"@),
        login_params_model(false).flag_field("useHostedLoginSuccessPage"@) == Some(true),
        login_params_model(false).text_field("appBrand"@) == Some("codex"@),
        account_params_model().flag_field("refreshToken"@) == Some(false),
        initialize_params_model(version).field("clientInfo"@) matches Some(client)
            && client.text_field("version"@) == Some(version) && client.text_field("name"@) == Some(
            "codex_usage_monitor"@,
        ),
        initialize_params_model(version).field("capabilities"@) matches Some(capabilities) && (
        capabilities.field("optOutNotificationMethods"@) matches Some(JsonModel::List(methods))
            && !methods.contains(JsonModel::Text("account/login/completed"@))
            && methods.contains(JsonModel::Text("thread/started"@)) && methods.contains(
            JsonModel::Text("turn/started"@),
        ) && methods.contains(JsonModel::Text("item/started"@)) && methods.contains(
            JsonModel::Text("item/completed"@),
        )),
{
    reveal_with_fuel(lookup, 4);
    reveal_strlit("type");
    reveal_strlit("appBrand");
    reveal_strlit("useHostedLoginSuccessPage");
    reveal_strlit("clientInfo");
    reveal_strlit("capabilities");
    reveal_strlit("version");
    reveal_strlit("name");
    reveal_strlit("title");
    reveal_strlit("account/login/completed");
    reveal_strlit("thread/started");
    reveal_strlit("turn/started");
    reveal_strlit("item/started");
    reveal_strlit("item/completed");
    assert("appBrand"@.len() != "type"@.len());
    assert("appBrand"@.len() != "useHostedLoginSuccessPage"@.len());
    assert("type"@.len() != "useHostedLoginSuccessPage"@.len());
    assert("clientInfo"@.len() != "capabilities"@.len());
    assert("name"@.len() != "version"@.len());
    assert("title"@.len() != "version"@.len());
    let login = login_params_model(false)->Object_0;
    assert(login.drop_first()[0] == login[1]);
    assert(login.drop_first().drop_first()[0] == login[2]);
    let first = initialize_params_model(version)->Object_0;
    assert(first.drop_first()[0] == first[1]);
    let client = first[1].1->Object_0;
    assert(client.drop_first()[0] == client[1]);
    assert(client.drop_first().drop_first()[0] == client[2]);
    let methods = unwanted_notifications();
    assert(methods[0] == JsonModel::Text("thread/started"@));
    assert(methods[1] == JsonModel::Text("turn/started"@));
    assert(methods[2] == JsonModel::Text("item/started"@));
    assert(methods[3] == JsonModel::Text("item/completed"@));
    assert(!methods.contains(JsonModel::Text("account/login/completed"@))) by {
        assert("account/login/completed"@.len() == 23);
        assert forall|i: int| 0 <= i < methods.len() implies methods[i] != JsonModel::Text(
            "account/login/completed"@,
        ) by {
            assert(methods[i] is Text && methods[i]->Text_0.len() < 23);
        }
    }
}

} // verus!
