//! The messages of the account service: one JSON object on a line.

use vstd::prelude::*;

use crate::error::{AppError, ErrorModel};
use crate::json::{
    is_settled, json_as_bytes, json_in_text, names_ascend, ordered, read_text, write_bytes, Json,
    JsonModel, NumberModel,
};
use crate::logging::{redact, redacted};
use crate::text::{begins, ends, first_chars, sorts_before, take_chars};

verus! {

/// A message from the service.
#[derive(Debug, PartialEq, Eq)]
pub enum IncomingMessage {
    Response { id: Json, result: Result<Json, RpcError> },
    Notification { method: String, params: Json },
    ServerRequest { id: Json, method: String, params: Json },
}

/// An error that the service answers with.
#[derive(Debug, PartialEq, Eq)]
pub struct RpcError {
    pub code: Option<i64>,
    pub message: String,
}

/// What an error of the service says.
pub struct RpcErrorModel {
    pub code: Option<i64>,
    pub message: Seq<char>,
}

/// What a message from the service says.
pub enum MessageModel {
    Response { id: JsonModel, result: Result<JsonModel, RpcErrorModel> },
    Notification { method: Seq<char>, params: JsonModel },
    ServerRequest { id: JsonModel, method: Seq<char>, params: JsonModel },
}

impl RpcError {
    /// What the error says.
    pub open spec fn view(self) -> RpcErrorModel {
        RpcErrorModel { code: self.code, message: self.message@ }
    }
}

impl IncomingMessage {
    /// What the message says.
    pub open spec fn view(self) -> MessageModel {
        match self {
            IncomingMessage::Response { id, result } => MessageModel::Response {
                id: id@,
                result: match result {
                    Ok(value) => Ok(value@),
                    Err(error) => Err(error@),
                },
            },
            IncomingMessage::Notification { method, params } => MessageModel::Notification {
                method: method@,
                params: params@,
            },
            IncomingMessage::ServerRequest { id, method, params } => MessageModel::ServerRequest {
                id: id@,
                method: method@,
                params: params@,
            },
        }
    }
}

/// The fields of a message with the parameters at the end, where it has any.
pub open spec fn with_params(
    fields: Seq<(Seq<char>, JsonModel)>,
    params: Option<JsonModel>,
) -> JsonModel {
    match params {
        Some(p) => JsonModel::Object(fields.push(("params"@, p))),
        None => JsonModel::Object(fields),
    }
}

/// What an optional value says.
pub open spec fn model_of(value: Option<Json>) -> Option<JsonModel> {
    match value {
        Some(v) => Some(v@),
        None => None,
    }
}

/// A request to the service.
pub open spec fn request_model(id: u64, method: Seq<char>, params: Option<JsonModel>) -> JsonModel {
    with_params(
        seq![
            ("id"@, JsonModel::Number(NumberModel::Whole(id as int))),
            ("method"@, JsonModel::Text(method)),
        ],
        params,
    )
}

/// A notification to the service.
pub open spec fn notification_model(method: Seq<char>, params: Option<JsonModel>) -> JsonModel {
    with_params(seq![("method"@, JsonModel::Text(method))], params)
}

/// Makes a request.
pub fn request(id: u64, method: &str, params: Option<Json>) -> (r: Json)
    ensures
        r@ == request_model(id, method@, model_of(params)),
{
    let value = Json::empty_object().with("id", Json::unsigned(id)).with(
        "method",
        Json::text(method),
    );
    assert(value@->Object_0 =~= seq![
        ("id"@, JsonModel::Number(NumberModel::Whole(id as int))),
        ("method"@, JsonModel::Text(method@)),
    ]);
    match params {
        Some(p) => value.with("params", p),
        None => value,
    }
}

/// Makes a notification.
pub fn notification(method: &str, params: Option<Json>) -> (r: Json)
    ensures
        r@ == notification_model(method@, model_of(params)),
{
    let value = Json::empty_object().with("method", Json::text(method));
    assert(value@->Object_0 =~= seq![("method"@, JsonModel::Text(method@))]);
    match params {
        Some(p) => value.with("params", p),
        None => value,
    }
}

/// What an object without a method says of an error.
pub open spec fn rpc_error_in(error: JsonModel) -> RpcErrorModel {
    RpcErrorModel {
        code: error.signed_field("code"@),
        message: match error.text_field("message"@) {
            Some(s) => s,
            None => "未知 App Server 错误"@,
        },
    }
}

/// The message that a JSON value is, or why it is none.
pub open spec fn message_in(value: JsonModel) -> Result<MessageModel, Seq<char>> {
    if !(value is Object) {
        Err("协议消息不是 JSON 对象"@)
    } else {
        let method = value.text_field("method"@);
        let params = JsonModel::or_null(value.field("params"@));
        match value.field("id"@) {
            Some(id) => match method {
                Some(method) => Ok(MessageModel::ServerRequest { id, method, params }),
                None => Ok(
                    MessageModel::Response {
                        id,
                        result: match value.field("error"@) {
                            Some(error) => Err(rpc_error_in(error)),
                            None => Ok(JsonModel::or_null(value.field("result"@))),
                        },
                    },
                ),
            },
            None => match method {
                Some(method) => Ok(MessageModel::Notification { method, params }),
                None => Err("协议消息既没有 id 也没有 method"@),
            },
        }
    }
}

/// Tells what message a JSON value is.
pub fn classify(value: &Json) -> (r: Result<IncomingMessage, AppError>)
    ensures
        match r {
            Ok(message) => message_in(value@) == Ok::<MessageModel, Seq<char>>(message@),
            Err(e) => message_in(value@) is Err && e@ == ErrorModel::InvalidResponse(
                message_in(value@)->Err_0,
            ),
        },
{
    match value {
        Json::Object(_) => {},
        _ => {
            return Err(AppError::InvalidResponse("协议消息不是 JSON 对象".to_owned()));
        },
    }
    let method = value.text_field("method");
    match value.get("id") {
        Some(id) => match method {
            Some(method) => Ok(
                IncomingMessage::ServerRequest {
                    id: id.copy(),
                    method,
                    params: value.field_or_null("params"),
                },
            ),
            None => match value.get("error") {
                Some(error) => {
                    let message = match error.text_field("message") {
                        Some(s) => s,
                        None => "未知 App Server 错误".to_owned(),
                    };
                    let failure = RpcError { code: error.signed_field("code"), message };
                    Ok(IncomingMessage::Response { id: id.copy(), result: Err(failure) })
                },
                None => Ok(
                    IncomingMessage::Response {
                        id: id.copy(),
                        result: Ok(value.field_or_null("result")),
                    },
                ),
            },
        },
        None => match method {
            Some(method) => Ok(
                IncomingMessage::Notification { method, params: value.field_or_null("params") },
            ),
            None => Err(AppError::InvalidResponse("协议消息既没有 id 也没有 method".to_owned())),
        },
    }
}

/// The beginning of a line, without anything confidential.
pub open spec fn excerpt(line: Seq<char>) -> Seq<char> {
    first_chars(redacted(line), 180)
}

fn safe_excerpt(line: &str) -> (r: String)
    ensures
        r@ == excerpt(line@),
{
    take_chars(redact(line).as_str(), 180)
}

/// What is answered to a line: the message, or the error.
pub open spec fn line_reading(line: Seq<char>) -> Result<MessageModel, ErrorModel> {
    match json_in_text(line) {
        Ok(value) => match message_in(value) {
            Ok(message) => Ok(message),
            Err(words) => Err(ErrorModel::InvalidResponse(words)),
        },
        Err(words) => Err(
            ErrorModel::InvalidResponse("非法 JSON："@ + words + "；片段="@ + excerpt(line)),
        ),
    }
}

/// Reads a line from the service.
pub fn parse_line(line: &str) -> (r: Result<IncomingMessage, AppError>)
    ensures
        match r {
            Ok(message) => line_reading(line@) == Ok::<MessageModel, ErrorModel>(message@),
            Err(e) => line_reading(line@) == Err::<MessageModel, ErrorModel>(e@),
        },
{
    match read_text(line) {
        Ok(value) => classify(&value),
        Err(words) => {
            let mut detail = "非法 JSON：".to_owned();
            detail.append(words.as_str());
            detail.append("；片段=");
            detail.append(safe_excerpt(line).as_str());
            Err(AppError::InvalidResponse(detail))
        },
    }
}

/// Writes a message as one line: its JSON, which holds no line feed, and then one.
pub fn frame(message: &Json) -> (r: Result<Vec<u8>, AppError>)
    ensures
        match r {
            Ok(line) => json_as_bytes(ordered(message@)) matches Ok(bytes) && line@ == bytes.push(
                10u8,
            ),
            Err(e) => json_as_bytes(ordered(message@)) matches Err(words) && e@
                == ErrorModel::InvalidResponse(words),
        },
        r matches Ok(line) ==> line@.len() > 0 && line@.last() == 10 && (forall|i: int|
            0 <= i < line@.len() - 1 ==> line@[i] != 10),
{
    match write_bytes(message) {
        Ok(bytes) => {
            let mut line = bytes;
            line.push(10);
            assert forall|i: int| 0 <= i < line@.len() - 1 implies line@[i] != 10 by {
                assert(bytes@[i] == line@[i]);
            }
            Ok(line)
        },
        Err(words) => Err(AppError::InvalidResponse(words)),
    }
}

/// Every object in a request ascends where every object in its parameters does.
pub proof fn lemma_request_is_settled(id: u64, method: Seq<char>, params: Option<JsonModel>)
    requires
        params matches Some(p) ==> is_settled(p),
    ensures
        is_settled(request_model(id, method, params)),
        is_settled(notification_model(method, params)),
{
    reveal_strlit("id");
    reveal_strlit("method");
    reveal_strlit("params");
    reveal_with_fuel(sorts_before, 2);
    let number = JsonModel::Number(NumberModel::Whole(id as int));
    let name = JsonModel::Text(method);
    assert(sorts_before("id"@, "method"@));
    assert(sorts_before("id"@, "params"@));
    assert(sorts_before("method"@, "params"@));
    assert(is_settled(number));
    assert(is_settled(name));
    let made = request_model(id, method, params)->Object_0;
    assert(names_ascend(made));
    assert forall|i: int| 0 <= i < made.len() implies is_settled((#[trigger] made[i]).1) by {}
    let told = notification_model(method, params)->Object_0;
    assert(names_ascend(told));
    assert forall|i: int| 0 <= i < told.len() implies is_settled((#[trigger] told[i]).1) by {}
}

/// A request comes back as a request of the same identifier, method and
/// parameters, and a notification as one of the same method and parameters.
pub proof fn lemma_messages_read_back(id: u64, method: Seq<char>, params: Option<JsonModel>)
    ensures
        message_in(request_model(id, method, params)) == Ok::<MessageModel, Seq<char>>(
            MessageModel::ServerRequest {
                id: JsonModel::Number(NumberModel::Whole(id as int)),
                method,
                params: JsonModel::or_null(params),
            },
        ),
        message_in(notification_model(method, params)) == Ok::<MessageModel, Seq<char>>(
            MessageModel::Notification { method, params: JsonModel::or_null(params) },
        ),
{
    reveal_strlit("id");
    reveal_strlit("method");
    reveal_strlit("params");
    reveal_with_fuel(crate::json::lookup, 4);
    assert("id"@.len() != "method"@.len() && "id"@.len() != "params"@.len());
    assert("method"@[0] != "params"@[0]);
    let made = request_model(id, method, params)->Object_0;
    assert(made.drop_first()[0] == made[1]);
    let told = notification_model(method, params)->Object_0;
    if params is Some {
        assert(made.drop_first().drop_first()[0] == made[2]);
        assert(told.drop_first()[0] == told[1]);
    }
}

/// A message is told by two fields: with an identifier and a method it is a request
/// of the service, with an identifier alone a response, with a method alone a
/// notification, and with neither none. A response that has an error is that error,
/// whatever else it has, and else its result; what is missing is null.
pub proof fn lemma_message_kinds(value: JsonModel)
    ensures
        message_in(value) is Err <==> !(value is Object) || value.field("id"@) is None
            && value.text_field("method"@) is None,
        value is Object ==> {
            let params = match value.field("params"@) {
                Some(given) => given,
                None => JsonModel::Null,
            };
            &&& value.field("id"@) matches Some(id) ==> (value.text_field("method"@) matches Some(
                method,
            ) ==> message_in(value) == Ok::<MessageModel, Seq<char>>(
                MessageModel::ServerRequest { id, method, params },
            ))
            &&& value.field("id"@) is None ==> (value.text_field("method"@) matches Some(method)
                ==> message_in(value) == Ok::<MessageModel, Seq<char>>(
                MessageModel::Notification { method, params },
            ))
            &&& value.field("id"@) matches Some(id) ==> value.text_field("method"@) is None ==> (
            message_in(value) matches Ok(MessageModel::Response { id: answered, result }) && answered
                == id && (value.field("error"@) is None ==> result == Ok::<JsonModel, RpcErrorModel>(
                match value.field("result"@) {
                    Some(given) => given,
                    None => JsonModel::Null,
                },
            )) && (value.field("error"@) matches Some(error) ==> (result matches Err(fault)
                && fault.code == error.signed_field("code"@) && (error.text_field(
                "message"@,
            ) matches Some(words) ==> fault.message == words) && (error.text_field("message"@) is None
                ==> fault.message.len() > 0))))
        },
{
    reveal_strlit("未知 App Server 错误");
}

/// A line is a message exactly if it is JSON and that is one. What is told of a line
/// that is not JSON holds at most 180 characters of it, and those from what redaction
/// leaves.
pub proof fn lemma_line_is_read(line: Seq<char>)
    ensures
        line_reading(line) is Ok <==> (json_in_text(line) matches Ok(value) && message_in(value)
            is Ok),
        json_in_text(line) matches Ok(value) ==> (message_in(value) matches Ok(message)
            ==> line_reading(line) == Ok::<MessageModel, ErrorModel>(message)),
        line_reading(line) matches Err(e) ==> e is InvalidResponse,
        excerpt(line).len() <= 180,
        begins(redacted(line), excerpt(line)),
        redacted(line).len() >= 180 ==> excerpt(line).len() == 180,
        json_in_text(line) is Err ==> (line_reading(line) matches Err(ErrorModel::InvalidResponse(
            words,
        )) && ends(words, excerpt(line))),
{
    let shown = redacted(line);
    let part = excerpt(line);
    assert(shown.subrange(0, part.len() as int) =~= part);
    if let Err(words) = json_in_text(line) {
        let told = line_reading(line)->Err_0->InvalidResponse_0;
        assert(told.subrange(told.len() - part.len(), told.len() as int) =~= part);
    }
}

} // verus!
