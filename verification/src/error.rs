//! What can go wrong, with a message for the user and a redacted diagnosis.

use vstd::prelude::*;

use crate::logging::{redact, redacted};
use crate::text::ends;

verus! {

/// An error of the application, with its detail.
#[derive(Debug, PartialEq, Eq)]
pub enum AppError {
    CodexUnavailable(String),
    ProtocolIncompatible(String),
    Server(String),
    NotLoggedIn,
    Timeout(String),
    Cancelled,
    ProcessExited(String),
    InvalidResponse(String),
    Storage(String),
    DesktopSwitch(String),
    Io(String),
}

/// What an error says.
pub enum ErrorModel {
    CodexUnavailable(Seq<char>),
    ProtocolIncompatible(Seq<char>),
    Server(Seq<char>),
    NotLoggedIn,
    Timeout(Seq<char>),
    Cancelled,
    ProcessExited(Seq<char>),
    InvalidResponse(Seq<char>),
    Storage(Seq<char>),
    DesktopSwitch(Seq<char>),
    Io(Seq<char>),
}

impl ErrorModel {
    /// The error in words.
    pub open spec fn words(self) -> Seq<char> {
        match self {
            ErrorModel::CodexUnavailable(s) => "Codex 可执行文件不可用："@ + s,
            ErrorModel::ProtocolIncompatible(s) => "Codex App Server 不支持当前账户协议："@ + s,
            ErrorModel::Server(s) => "Codex App Server 返回错误："@ + s,
            ErrorModel::NotLoggedIn => "账号尚未登录"@,
            ErrorModel::Timeout(s) => "操作超时："@ + s,
            ErrorModel::Cancelled => "操作已取消"@,
            ErrorModel::ProcessExited(s) => "Codex App Server 提前退出："@ + s,
            ErrorModel::InvalidResponse(s) => "无法解析 App Server 响应："@ + s,
            ErrorModel::Storage(s) => "本地数据错误："@ + s,
            ErrorModel::DesktopSwitch(s) => "桌面账号切换失败："@ + s,
            ErrorModel::Io(s) => "系统错误："@ + s,
        }
    }

    /// The error in a few words for the user, without its detail.
    pub open spec fn summary(self) -> Seq<char> {
        match self {
            ErrorModel::CodexUnavailable(_) => "未找到可用的 Codex CLI"@,
            ErrorModel::ProtocolIncompatible(_) => "Codex 版本与应用协议不兼容"@,
            ErrorModel::Server(_) => "Codex 服务返回错误"@,
            ErrorModel::NotLoggedIn => "账号尚未登录或登录已失效"@,
            ErrorModel::Timeout(_) => "请求超时，请检查网络后重试"@,
            ErrorModel::Cancelled => "操作已取消"@,
            ErrorModel::ProcessExited(_) => "Codex App Server 意外退出"@,
            ErrorModel::InvalidResponse(_) => "Codex 返回了无法识别的数据"@,
            ErrorModel::Storage(_) => "无法读取或保存本地数据"@,
            ErrorModel::DesktopSwitch(_) => "无法安全切换桌面应用账号"@,
            ErrorModel::Io(_) => "本地系统操作失败"@,
        }
    }

    /// The error in words, without anything confidential.
    pub open spec fn diagnosis(self) -> Seq<char> {
        redacted(self.words())
    }
}

fn prefixed(prefix: &str, detail: &str) -> (r: String)
    ensures
        r@ == prefix@ + detail@,
{
    let mut out = prefix.to_owned();
    out.append(detail);
    out
}

impl AppError {
    /// What the error says.
    pub open spec fn view(self) -> ErrorModel {
        match self {
            AppError::CodexUnavailable(s) => ErrorModel::CodexUnavailable(s@),
            AppError::ProtocolIncompatible(s) => ErrorModel::ProtocolIncompatible(s@),
            AppError::Server(s) => ErrorModel::Server(s@),
            AppError::NotLoggedIn => ErrorModel::NotLoggedIn,
            AppError::Timeout(s) => ErrorModel::Timeout(s@),
            AppError::Cancelled => ErrorModel::Cancelled,
            AppError::ProcessExited(s) => ErrorModel::ProcessExited(s@),
            AppError::InvalidResponse(s) => ErrorModel::InvalidResponse(s@),
            AppError::Storage(s) => ErrorModel::Storage(s@),
            AppError::DesktopSwitch(s) => ErrorModel::DesktopSwitch(s@),
            AppError::Io(s) => ErrorModel::Io(s@),
        }
    }

    /// The error in words.
    pub fn message(&self) -> (r: String)
        ensures
            r@ == self@.words(),
    {
        match self {
            AppError::CodexUnavailable(s) => prefixed("Codex 可执行文件不可用：", s.as_str()),
            AppError::ProtocolIncompatible(s) => prefixed(
                "Codex App Server 不支持当前账户协议：",
                s.as_str(),
            ),
            AppError::Server(s) => prefixed("Codex App Server 返回错误：", s.as_str()),
            AppError::NotLoggedIn => "账号尚未登录".to_owned(),
            AppError::Timeout(s) => prefixed("操作超时：", s.as_str()),
            AppError::Cancelled => "操作已取消".to_owned(),
            AppError::ProcessExited(s) => prefixed("Codex App Server 提前退出：", s.as_str()),
            AppError::InvalidResponse(s) => prefixed("无法解析 App Server 响应：", s.as_str()),
            AppError::Storage(s) => prefixed("本地数据错误：", s.as_str()),
            AppError::DesktopSwitch(s) => prefixed("桌面账号切换失败：", s.as_str()),
            AppError::Io(s) => prefixed("系统错误：", s.as_str()),
        }
    }

    /// The error in a few words for the user, without its detail.
    pub fn user_message(&self) -> (r: &'static str)
        ensures
            r@ == self@.summary(),
    {
        match self {
            AppError::CodexUnavailable(_) => "未找到可用的 Codex CLI",
            AppError::ProtocolIncompatible(_) => "Codex 版本与应用协议不兼容",
            AppError::Server(_) => "Codex 服务返回错误",
            AppError::NotLoggedIn => "账号尚未登录或登录已失效",
            AppError::Timeout(_) => "请求超时，请检查网络后重试",
            AppError::Cancelled => "操作已取消",
            AppError::ProcessExited(_) => "Codex App Server 意外退出",
            AppError::InvalidResponse(_) => "Codex 返回了无法识别的数据",
            AppError::Storage(_) => "无法读取或保存本地数据",
            AppError::DesktopSwitch(_) => "无法安全切换桌面应用账号",
            AppError::Io(_) => "本地系统操作失败",
        }
    }

    /// The error in words, without anything confidential.
    pub fn diagnostic(&self) -> (r: String)
        ensures
            r@ == self@.diagnosis(),
    {
        redact(self.message().as_str())
    }
}

/// What an error says ends with its detail, what the user is told of it in a few
/// words does not depend on the detail, and its diagnosis is what redaction leaves.
pub proof fn lemma_errors_are_told(detail: Seq<char>, other: Seq<char>, error: ErrorModel)
    ensures
        ends(ErrorModel::CodexUnavailable(detail).words(), detail),
        ends(ErrorModel::ProtocolIncompatible(detail).words(), detail),
        ends(ErrorModel::Server(detail).words(), detail),
        ends(ErrorModel::Timeout(detail).words(), detail),
        ends(ErrorModel::ProcessExited(detail).words(), detail),
        ends(ErrorModel::InvalidResponse(detail).words(), detail),
        ends(ErrorModel::Storage(detail).words(), detail),
        ends(ErrorModel::DesktopSwitch(detail).words(), detail),
        ends(ErrorModel::Io(detail).words(), detail),
        ErrorModel::Server(detail).summary() == ErrorModel::Server(other).summary(),
        ErrorModel::Storage(detail).summary() == ErrorModel::Storage(other).summary(),
        ErrorModel::DesktopSwitch(detail).summary() == ErrorModel::DesktopSwitch(other).summary(),
        error.diagnosis() == redacted(error.words()),
{
    lemma_tail("Codex 可执行文件不可用："@, detail);
    lemma_tail("Codex App Server 不支持当前账户协议："@, detail);
    lemma_tail("Codex App Server 返回错误："@, detail);
    lemma_tail("操作超时："@, detail);
    lemma_tail("Codex App Server 提前退出："@, detail);
    lemma_tail("无法解析 App Server 响应："@, detail);
    lemma_tail("本地数据错误："@, detail);
    lemma_tail("桌面账号切换失败："@, detail);
    lemma_tail("系统错误："@, detail);
}

proof fn lemma_tail(head: Seq<char>, tail: Seq<char>)
    ensures
        ends(head + tail, tail),
{
    let all = head + tail;
    assert(all.subrange(all.len() - tail.len(), all.len() as int) =~= tail);
}

} // verus!
