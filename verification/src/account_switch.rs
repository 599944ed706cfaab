//! Credentials of the desktop application: whose they are, and how those of one
//! account take the place of those of another.

use vstd::prelude::*;

use crate::account::{copy_text, AccountIdentity, AccountRecord, IdentityModel};
use crate::error::{AppError, ErrorModel};
use crate::ids::{id_words, lemma_ids_are_written_apart, write_id};
use crate::json::{json_in_bytes, read_bytes, Json, JsonModel};
use crate::paths::{
    below, is_absolute, is_absolute_path, join, lemma_below_keeps_places_apart, parent, parent_of,
    same_path, same_place, PathStyle,
};
use crate::text::{
    begins, contains_text, holds, is_blank, is_space, lemma_lower_char, lemma_split_apart,
    lemma_split_whole, lemma_trimmed, lower_text, lowered, same_ignoring_case, same_text, split,
    split_text, stands_at, starts_with_text, text_of, texts, trim_text, trimmed, Separator,
};

verus! {

/// The size in bytes up to which a file can hold credentials.
pub const MAX_AUTH_BYTES: u64 = 1_048_576;

/// Whose credentials a file holds: a stable identifier, a verified address, or both.
#[derive(Debug, PartialEq, Eq)]
pub struct CredentialIdentity {
    pub account_id: Option<String>,
    pub email: Option<String>,
}

/// What a credential identity says.
pub struct CredentialModel {
    pub account_id: Option<Seq<char>>,
    pub email: Option<Seq<char>>,
}

/// Whether two owners agree: by their identifiers where both have one, else by
/// their addresses.
pub open spec fn agree(
    id: Option<Seq<char>>,
    email: Option<Seq<char>>,
    other_id: Option<Seq<char>>,
    other_email: Option<Seq<char>>,
) -> bool {
    if id is Some && other_id is Some {
        id == other_id
    } else {
        email is Some && other_email is Some && lowered(email->0) == lowered(other_email->0)
    }
}

fn owners_agree(
    id: &Option<String>,
    email: &Option<String>,
    other_id: &Option<String>,
    other_email: &Option<String>,
) -> (r: bool)
    ensures
        r == agree(text_of(*id), text_of(*email), text_of(*other_id), text_of(*other_email)),
{
    if let Some(left) = id {
        if let Some(right) = other_id {
            return same_text(left.as_str(), right.as_str());
        }
    }
    if let Some(left) = email {
        if let Some(right) = other_email {
            return same_ignoring_case(left.as_str(), right.as_str());
        }
    }
    false
}

impl CredentialIdentity {
    /// What the identity says.
    pub open spec fn view(self) -> CredentialModel {
        CredentialModel { account_id: text_of(self.account_id), email: text_of(self.email) }
    }

    /// Whether the service reports the account that the credentials belong to.
    pub fn matches_account(&self, account: &AccountIdentity) -> (r: bool)
        ensures
            r == self@.is_account(account@),
    {
        owners_agree(&self.account_id, &self.email, &account.account_id, &account.email)
    }

    /// Whether two credentials belong to one account.
    pub fn same_account(&self, other: &CredentialIdentity) -> (r: bool)
        ensures
            r == agree(self@.account_id, self@.email, other@.account_id, other@.email),
    {
        owners_agree(&self.account_id, &self.email, &other.account_id, &other.email)
    }

    /// The same identity.
    pub fn copy(&self) -> (r: CredentialIdentity)
        ensures
            r == *self,
    {
        CredentialIdentity {
            account_id: copy_text(&self.account_id),
            email: copy_text(&self.email),
        }
    }
}

impl CredentialModel {
    /// Whether the service reports the account that the credentials belong to.
    pub open spec fn is_account(self, account: IdentityModel) -> bool {
        agree(self.account_id, self.email, account.account_id, account.email)
    }
}

/// The stable identifier decides alone where both sides have one; else two
/// addresses agree exactly if they are the same but for the case of their letters.
/// Agreement goes both ways.
pub proof fn lemma_agreement(
    id: Option<Seq<char>>,
    email: Option<Seq<char>>,
    other_id: Option<Seq<char>>,
    other_email: Option<Seq<char>>,
)
    ensures
        id is Some && other_id is Some ==> (agree(id, email, other_id, other_email) <==> id
            == other_id),
        agree(id, email, other_id, other_email) == agree(other_id, other_email, id, email),
        id is None || other_id is None ==> (agree(id, email, other_id, other_email) <==> (
        email matches Some(a) && other_email matches Some(b) && reads_alike(a, b))),
{
    if let Some(a) = email {
        if let Some(b) = other_email {
            lemma_reads_alike(a, b);
        }
    }
}

/// Whether two texts are the same but for the case of their letters.
pub open spec fn reads_alike(a: Seq<char>, b: Seq<char>) -> bool {
    a.len() == b.len() && forall|i: int|
        0 <= i < a.len() ==> (#[trigger] a[i] == b[i] || ('A' <= a[i] <= 'Z' && a[i] as int + 32
            == b[i] as int) || ('A' <= b[i] <= 'Z' && b[i] as int + 32 == a[i] as int))
}

proof fn lemma_reads_alike(a: Seq<char>, b: Seq<char>)
    ensures
        reads_alike(a, b) <==> lowered(a) == lowered(b),
{
    if lowered(a) == lowered(b) {
        assert(a.len() == lowered(a).len() && b.len() == lowered(b).len());
        assert forall|i: int| 0 <= i < a.len() implies (#[trigger] a[i] == b[i] || ('A' <= a[i]
            <= 'Z' && a[i] as int + 32 == b[i] as int) || ('A' <= b[i] <= 'Z' && b[i] as int + 32
            == a[i] as int)) by {
            assert(lowered(a)[i] == lowered(b)[i]);
            lemma_lower_char(a[i]);
            lemma_lower_char(b[i]);
        }
    }
    if reads_alike(a, b) {
        assert forall|i: int| 0 <= i < a.len() implies lowered(a)[i] == lowered(b)[i] by {
            assert(a[i] == b[i] || ('A' <= a[i] <= 'Z' && a[i] as int + 32 == b[i] as int) || ('A'
                <= b[i] <= 'Z' && b[i] as int + 32 == a[i] as int));
            lemma_lower_char(a[i]);
            lemma_lower_char(b[i]);
        }
        assert(lowered(a) =~= lowered(b));
    }
}

/// Who owns the credentials of the desktop application.
#[derive(Debug, Clone, Copy, PartialEq, Eq, Structural)]
pub enum CredentialOwner {
    Managed(u128),
    Unmanaged,
    Ambiguous,
    Missing,
}

/// What is known of the credentials of the desktop application.
#[derive(Debug, PartialEq, Eq)]
pub struct DesktopCredentialInspection {
    pub owner: CredentialOwner,
    pub identity: Option<CredentialIdentity>,
}

/// What stands at a path, itself and not what a link there leads to.
#[derive(Debug, PartialEq, Eq)]
pub enum PathKind {
    Unreadable(String),
    Directory,
    File,
    Other,
}

/// What the kind of a path says.
pub enum KindModel {
    Unreadable(Seq<char>),
    Directory,
    File,
    Other,
}

impl PathKind {
    /// What the kind says.
    pub open spec fn view(self) -> KindModel {
        match self {
            PathKind::Unreadable(s) => KindModel::Unreadable(s@),
            PathKind::Directory => KindModel::Directory,
            PathKind::File => KindModel::File,
            PathKind::Other => KindModel::Other,
        }
    }
}

/// What an attempt to read a credential file found.
#[derive(Debug, PartialEq, Eq)]
pub struct AuthRead {
    pub kind: PathKind,
    pub size: u64,
    pub content: Result<Vec<u8>, String>,
}

/// What an attempt to read says.
pub struct ReadModel {
    pub kind: KindModel,
    pub size: u64,
    pub content: Result<Seq<u8>, Seq<char>>,
}

impl AuthRead {
    /// What the attempt says.
    pub open spec fn view(self) -> ReadModel {
        ReadModel {
            kind: self.kind@,
            size: self.size,
            content: match self.content {
                Ok(bytes) => Ok(bytes@),
                Err(words) => Err(words@),
            },
        }
    }
}

/// What was found in the home of an account.
#[derive(Debug, PartialEq, Eq)]
pub struct HomeEvidence {
    pub directory: PathKind,
    pub auth: AuthRead,
}

/// What was found in the home of the desktop application: its configuration
/// with its size where it could be read, and its credential file where there is one.
#[derive(Debug, PartialEq, Eq)]
pub struct GlobalEvidence {
    pub config: Option<(u64, String)>,
    pub auth: Option<AuthRead>,
}

/// The home of the desktop application below the home of the user.
pub fn default_global_codex_home(style: PathStyle, user_home: &Option<String>) -> (r: Result<
    String,
    AppError,
>)
    ensures
        match user_home {
            Some(home) => r matches Ok(path) && path@ == below(style, home@, ".codex"@),
            None => r matches Err(e) && e@ == ErrorModel::Storage(
                "无法确定用户目录中的全局 Codex Home"@,
            ),
        },
{
    match user_home {
        Some(home) => Ok(join(style, home.as_str(), ".codex")),
        None => Err(AppError::Storage("无法确定用户目录中的全局 Codex Home".to_owned())),
    }
}

/// The credential file of a home.
pub open spec fn auth_place(style: PathStyle, codex_home: Seq<char>) -> Seq<char> {
    below(style, codex_home, "auth.json"@)
}

/// The credential file of a home.
pub fn auth_path(style: PathStyle, codex_home: &str) -> (r: String)
    ensures
        r@ == auth_place(style, codex_home@),
{
    join(style, codex_home, "auth.json")
}

fn with_path(words: &str, path: &str) -> (r: AppError)
    ensures
        r@ == ErrorModel::Storage(words@ + path@),
{
    let mut detail = words.to_owned();
    detail.append(path);
    AppError::Storage(detail)
}

/// Why a path is not accepted as a directory.
pub open spec fn directory_fault(kind: KindModel, path: Seq<char>, label: Seq<char>) -> Option<
    ErrorModel,
> {
    match kind {
        KindModel::Directory => None,
        KindModel::Unreadable(words) => Some(
            ErrorModel::Storage(label + "不存在或无法读取 "@ + path + "："@ + words),
        ),
        _ => Some(ErrorModel::Storage(label + "不是普通目录："@ + path)),
    }
}

/// Refuses what is not a directory itself.
pub fn ensure_ordinary_directory(kind: &PathKind, path: &str, label: &str) -> (r: Result<
    (),
    AppError,
>)
    ensures
        match r {
            Ok(_) => directory_fault(kind@, path@, label@) is None,
            Err(e) => directory_fault(kind@, path@, label@) == Some(e@),
        },
{
    let mut detail = label.to_owned();
    match kind {
        PathKind::Directory => Ok(()),
        PathKind::Unreadable(words) => {
            detail.append("不存在或无法读取 ");
            detail.append(path);
            detail.append("：");
            detail.append(words.as_str());
            Err(AppError::Storage(detail))
        },
        _ => {
            detail.append("不是普通目录：");
            detail.append(path);
            Err(AppError::Storage(detail))
        },
    }
}

/// The bytes of a credential file, or why they are not accepted.
pub open spec fn raw_auth(path: Seq<char>, read: ReadModel) -> Result<Seq<u8>, ErrorModel> {
    match read.kind {
        KindModel::Unreadable(words) => Err(
            ErrorModel::Storage("无法读取凭据文件 "@ + path + "："@ + words),
        ),
        KindModel::File => if read.size > MAX_AUTH_BYTES {
            Err(ErrorModel::Storage("凭据文件大小异常："@ + path))
        } else {
            match read.content {
                Ok(bytes) => Ok(bytes),
                Err(words) => Err(ErrorModel::Io(words)),
            }
        },
        _ => Err(ErrorModel::Storage("凭据路径不是普通文件："@ + path)),
    }
}

/// A copy of some bytes.
pub fn copy_bytes(bytes: &Vec<u8>) -> (r: Vec<u8>)
    ensures
        r@ == bytes@,
{
    let mut out: Vec<u8> = Vec::new();
    let mut i: usize = 0;
    while i < bytes.len()
        invariant
            i <= bytes@.len(),
            out@ == bytes@.take(i as int),
        decreases bytes@.len() - i,
    {
        out.push(bytes[i]);
        i = i + 1;
        assert(out@ =~= bytes@.take(i as int));
    }
    assert(bytes@.take(i as int) =~= bytes@);
    out
}

/// Takes the bytes of a credential file, which must be a file of sane size.
pub fn read_raw_auth_file(path: &str, read: &AuthRead) -> (r: Result<Vec<u8>, AppError>)
    ensures
        match r {
            Ok(bytes) => raw_auth(path@, read@) == Ok::<Seq<u8>, ErrorModel>(bytes@),
            Err(e) => raw_auth(path@, read@) == Err::<Seq<u8>, ErrorModel>(e@),
        },
{
    match &read.kind {
        PathKind::Unreadable(words) => {
            let mut detail = "无法读取凭据文件 ".to_owned();
            detail.append(path);
            detail.append("：");
            detail.append(words.as_str());
            Err(AppError::Storage(detail))
        },
        PathKind::File => {
            if read.size > MAX_AUTH_BYTES {
                return Err(with_path("凭据文件大小异常：", path));
            }
            match &read.content {
                Ok(bytes) => Ok(copy_bytes(bytes)),
                Err(words) => Err(AppError::Io(words.clone())),
            }
        },
        _ => Err(with_path("凭据路径不是普通文件：", path)),
    }
}

/// A text without white space at its ends, if anything is left of it.
pub open spec fn nonblank(value: Option<Seq<char>>) -> Option<Seq<char>> {
    match value {
        Some(s) if trimmed(s).len() > 0 => Some(trimmed(s)),
        _ => None,
    }
}

fn non_empty_owned(value: &Option<String>) -> (r: Option<String>)
    ensures
        text_of(r) == nonblank(text_of(*value)),
{
    match value {
        Some(s) => {
            let short = trim_text(s.as_str());
            if short.as_str().is_empty() {
                None
            } else {
                Some(short)
            }
        },
        None => None,
    }
}

/// What base64 without padding, in the alphabet for addresses, stands for.
pub uninterp spec fn decoded_base64(text: Seq<char>) -> Option<Seq<u8>>;

/// `base64`'s `URL_SAFE_NO_PAD.decode`: the bytes that a text stands for, or
/// nothing where it is no such text; which fault it has is not kept.
#[verifier::external_body]
fn decode_base64(text: &str) -> (r: Option<Vec<u8>>)
    ensures
        match r {
            Some(bytes) => decoded_base64(text@) == Some(bytes@),
            None => decoded_base64(text@) is None,
        },
{
    base64::Engine::decode(&base64::engine::general_purpose::URL_SAFE_NO_PAD, text).ok()
}

/// The claims that a signed token carries in its second part.
pub open spec fn claims_in(token: Seq<char>) -> Option<JsonModel> {
    let parts = split(token, Separator::Only('.'));
    if parts.len() < 2 {
        None
    } else {
        match decoded_base64(parts[1]) {
            Some(bytes) => match json_in_bytes(bytes) {
                Ok(value) => Some(value),
                Err(_) => None,
            },
            None => None,
        }
    }
}

fn decode_jwt_claims(token: &str) -> (r: Option<Json>)
    ensures
        match r {
            Some(claims) => claims_in(token@) == Some(claims@),
            None => claims_in(token@) is None,
        },
{
    let parts = split_text(token, Separator::Only('.'));
    assert(texts(parts@).len() == parts@.len());
    if parts.len() < 2 {
        return None;
    }
    assert(texts(parts@)[1] == parts@[1]@);
    match decode_base64(parts[1].as_str()) {
        Some(bytes) => match read_bytes(bytes.as_slice()) {
            Ok(value) => Some(value),
            Err(_) => None,
        },
        None => None,
    }
}

/// The first of three optional values that is a text.
pub open spec fn first_text(
    a: Option<JsonModel>,
    b: Option<JsonModel>,
    c: Option<JsonModel>,
) -> Option<Seq<char>> {
    if a is Some && a->0.text() is Some {
        a->0.text()
    } else if b is Some && b->0.text() is Some {
        b->0.text()
    } else if c is Some {
        c->0.text()
    } else {
        None
    }
}

/// The identifier that claims give.
pub open spec fn claimed_id(claims: JsonModel) -> Option<Seq<char>> {
    nonblank(
        first_text(
            claims.field("account_id"@),
            claims.field("chatgpt_account_id"@),
            match claims.field("https://api.openai.com/auth"@) {
                Some(auth) => auth.field("chatgpt_account_id"@),
                None => None,
            },
        ),
    )
}

/// The address that claims give, where they say that it is verified.
pub open spec fn claimed_email(claims: JsonModel) -> Option<Seq<char>> {
    if claims.flag_field("email_verified"@) == Some(true) {
        nonblank(claims.text_field("email"@))
    } else {
        None
    }
}

/// The identifier that stands in the credentials themselves.
pub open spec fn stated_id(value: JsonModel, tokens: JsonModel) -> Option<Seq<char>> {
    let stated = match tokens.field("account_id"@) {
        Some(v) => Some(v),
        None => value.field("account_id"@),
    };
    nonblank(
        match stated {
            Some(v) => v.text(),
            None => None,
        },
    )
}

/// The owner of credentials whose token carries these claims.
pub open spec fn identity_with(value: JsonModel, claims: Option<JsonModel>) -> Option<
    CredentialModel,
> {
    match value.field("tokens"@) {
        None => None,
        Some(tokens) => {
            let stated = stated_id(value, tokens);
            let account_id = match stated {
                Some(id) => Some(id),
                None => match claims {
                    Some(c) => claimed_id(c),
                    None => None,
                },
            };
            let email = match claims {
                Some(c) => claimed_email(c),
                None => None,
            };
            if account_id is Some || email is Some {
                Some(CredentialModel { account_id, email })
            } else {
                None
            }
        },
    }
}

/// The claims of the token in credentials.
pub open spec fn carried_claims(value: JsonModel) -> Option<JsonModel> {
    match value.field("tokens"@) {
        Some(tokens) => match tokens.text_field("id_token"@) {
            Some(token) => claims_in(token),
            None => None,
        },
        None => None,
    }
}

/// The owner of credentials.
pub open spec fn identity_of(value: JsonModel) -> Option<CredentialModel> {
    identity_with(value, carried_claims(value))
}

fn text_in(value: Option<&Json>) -> (r: Option<String>)
    ensures
        text_of(r) == (match value {
            Some(v) => v@.text(),
            None => None,
        }),
{
    match value {
        Some(v) => match v.as_text() {
            Some(s) => Some(s.clone()),
            None => None,
        },
        None => None,
    }
}

fn claimed_account(claims: &Json) -> (r: Option<String>)
    ensures
        text_of(r) == claimed_id(claims@),
{
    let first = text_in(claims.get("account_id"));
    if first.is_some() {
        return non_empty_owned(&first);
    }
    let second = text_in(claims.get("chatgpt_account_id"));
    if second.is_some() {
        return non_empty_owned(&second);
    }
    let third = match claims.get("https://api.openai.com/auth") {
        Some(auth) => text_in(auth.get("chatgpt_account_id")),
        None => None,
    };
    non_empty_owned(&third)
}

/// Tells whose credentials these are, with the claims of their token at hand.
pub fn identity_from(value: &Json, claims: &Option<Json>) -> (r: Option<CredentialIdentity>)
    ensures
        match r {
            Some(identity) => identity_with(value@, crate::protocol::model_of(*claims)) == Some(
                identity@,
            ),
            None => identity_with(value@, crate::protocol::model_of(*claims)) is None,
        },
{
    let tokens = match value.get("tokens") {
        Some(tokens) => tokens,
        None => {
            return None;
        },
    };
    let stated = match tokens.get("account_id") {
        Some(v) => text_in(Some(v)),
        None => text_in(value.get("account_id")),
    };
    let mut account_id = non_empty_owned(&stated);
    let mut email: Option<String> = None;
    if let Some(claims) = claims {
        if account_id.is_none() {
            account_id = claimed_account(claims);
        }
        let verified = match claims.flag_field("email_verified") {
            Some(b) => b,
            None => false,
        };
        if verified {
            email = non_empty_owned(&claims.text_field("email"));
        }
    }
    if account_id.is_some() || email.is_some() {
        Some(CredentialIdentity { account_id, email })
    } else {
        None
    }
}

/// Tells whose credentials these are.
pub fn extract_identity(value: &Json) -> (r: Option<CredentialIdentity>)
    ensures
        match r {
            Some(identity) => identity_of(value@) == Some(identity@),
            None => identity_of(value@) is None,
        },
{
    let claims = match value.get("tokens") {
        Some(tokens) => match tokens.text_field("id_token") {
            Some(token) => decode_jwt_claims(token.as_str()),
            None => None,
        },
        None => None,
    };
    identity_from(value, &claims)
}

/// An owner is only told by an identifier or by an address that its token calls
/// verified, and never by an address that it does not.
pub proof fn lemma_unverified_address_is_no_identity(value: JsonModel, claims: JsonModel)
    requires
        claims.flag_field("email_verified"@) != Some(true),
    ensures
        identity_with(value, Some(claims)) matches Some(identity) ==> identity.email is None
            && identity.account_id is Some,
{
}

/// Credentials and their owner.
#[derive(Debug, PartialEq, Eq)]
pub struct CredentialDocument {
    pub bytes: Vec<u8>,
    pub identity: CredentialIdentity,
}

/// Credentials and their owner, if one can be told.
#[derive(Debug, PartialEq, Eq)]
pub struct CurrentCredentialDocument {
    pub bytes: Vec<u8>,
    pub identity: Option<CredentialIdentity>,
}

/// What credentials of a subscription say, or why they are not accepted.
pub open spec fn chatgpt_document(path: Seq<char>, read: ReadModel) -> Result<
    (Seq<u8>, CredentialModel),
    ErrorModel,
> {
    match raw_auth(path, read) {
        Err(e) => Err(e),
        Ok(bytes) => match json_in_bytes(bytes) {
            Err(_) => Err(ErrorModel::Storage("凭据文件不是有效 JSON："@ + path)),
            Ok(value) => if value.text_field("auth_mode"@) != Some("chatgpt"@) {
                Err(
                    ErrorModel::Storage("仅支持已完成 ChatGPT OAuth 的文件型凭据："@ + path),
                )
            } else {
                match identity_of(value) {
                    Some(identity) => Ok((bytes, identity)),
                    None => Err(
                        ErrorModel::Storage(
                            "无法从凭据中提取稳定账号 ID 或经过验证的完整邮箱："@ + path,
                        ),
                    ),
                }
            },
        },
    }
}

fn is_subscription(value: &Json) -> (r: bool)
    ensures
        r == (value@.text_field("auth_mode"@) == Some("chatgpt"@)),
{
    match value.text_field("auth_mode") {
        Some(mode) => same_text(mode.as_str(), "chatgpt"),
        None => false,
    }
}

/// Reads the credentials of a subscription.
pub fn read_chatgpt_credentials(path: &str, read: &AuthRead) -> (r: Result<
    CredentialDocument,
    AppError,
>)
    ensures
        match r {
            Ok(document) => chatgpt_document(path@, read@) == Ok::<
                (Seq<u8>, CredentialModel),
                ErrorModel,
            >((document.bytes@, document.identity@)),
            Err(e) => chatgpt_document(path@, read@) == Err::<
                (Seq<u8>, CredentialModel),
                ErrorModel,
            >(e@),
        },
{
    let bytes = match read_raw_auth_file(path, read) {
        Ok(bytes) => bytes,
        Err(e) => {
            return Err(e);
        },
    };
    let value = match read_bytes(bytes.as_slice()) {
        Ok(value) => value,
        Err(_) => {
            return Err(with_path("凭据文件不是有效 JSON：", path));
        },
    };
    if !is_subscription(&value) {
        return Err(with_path("仅支持已完成 ChatGPT OAuth 的文件型凭据：", path));
    }
    match extract_identity(&value) {
        Some(identity) => Ok(CredentialDocument { bytes, identity }),
        None => Err(
            with_path("无法从凭据中提取稳定账号 ID 或经过验证的完整邮箱：", path),
        ),
    }
}

/// The owner of bytes that need not be credentials at all.
pub open spec fn owner_in(bytes: Seq<u8>) -> Option<CredentialModel> {
    match json_in_bytes(bytes) {
        Ok(value) => if value.text_field("auth_mode"@) == Some("chatgpt"@) {
            identity_of(value)
        } else {
            None
        },
        Err(_) => None,
    }
}

/// What an optional credential identity says.
pub open spec fn credential_of(identity: Option<CredentialIdentity>) -> Option<CredentialModel> {
    match identity {
        Some(i) => Some(i@),
        None => None,
    }
}

/// Reads the credentials that the desktop application has, whatever they are.
pub fn read_current_credentials(path: &str, read: &AuthRead) -> (r: Result<
    CurrentCredentialDocument,
    AppError,
>)
    ensures
        match r {
            Ok(document) => raw_auth(path@, read@) == Ok::<Seq<u8>, ErrorModel>(document.bytes@)
                && credential_of(document.identity) == owner_in(document.bytes@),
            Err(e) => raw_auth(path@, read@) == Err::<Seq<u8>, ErrorModel>(e@),
        },
{
    let bytes = match read_raw_auth_file(path, read) {
        Ok(bytes) => bytes,
        Err(e) => {
            return Err(e);
        },
    };
    let identity = match read_bytes(bytes.as_slice()) {
        Ok(value) => if is_subscription(&value) {
            extract_identity(&value)
        } else {
            None
        },
        Err(_) => None,
    };
    Ok(CurrentCredentialDocument { bytes, identity })
}

/// The owner of the credentials in the home of an account.
pub open spec fn home_owner(
    style: PathStyle,
    state_dir: Seq<char>,
    directory: KindModel,
    auth: ReadModel,
) -> Option<CredentialModel> {
    if directory is Directory {
        match chatgpt_document(auth_place(style, state_dir), auth) {
            Ok(document) => Some(document.1),
            Err(_) => None,
        }
    } else {
        None
    }
}

/// Whether the credentials in a home are those of an owner: by the identifier
/// where the owner has one, else by the address.
pub open spec fn is_home_of(found: Option<CredentialModel>, owner: CredentialModel) -> bool {
    found matches Some(f) && match owner.account_id {
        Some(id) => f.account_id == Some(id),
        None => owner.email is Some && f.email is Some && lowered(f.email->0) == lowered(
            owner.email->0,
        ),
    }
}

/// The accounts in whose homes the credentials of an owner stand.
pub open spec fn homes_of(
    style: PathStyle,
    owner: CredentialModel,
    accounts: Seq<AccountRecord>,
    evidence: Seq<HomeEvidence>,
) -> Seq<u128>
    decreases accounts.len(),
{
    if accounts.len() == 0 {
        Seq::empty()
    } else {
        let before = homes_of(style, owner, accounts.drop_last(), evidence);
        let found = evidence[accounts.len() - 1];
        if is_home_of(
            home_owner(style, accounts.last().state_dir@, found.directory@, found.auth@),
            owner,
        ) {
            before.push(accounts.last().id)
        } else {
            before
        }
    }
}

/// The one account of a list, if there is exactly one.
pub open spec fn verdict(ids: Seq<u128>) -> CredentialOwner {
    if ids.len() == 1 {
        CredentialOwner::Managed(ids[0])
    } else if ids.len() == 0 {
        CredentialOwner::Unmanaged
    } else {
        CredentialOwner::Ambiguous
    }
}

/// The managed account that an owner is.
pub open spec fn managed_owner(
    style: PathStyle,
    owner: CredentialModel,
    accounts: Seq<AccountRecord>,
    evidence: Seq<HomeEvidence>,
) -> CredentialOwner {
    verdict(homes_of(style, owner, accounts, evidence))
}

fn find_home_owner(style: PathStyle, state_dir: &str, evidence: &HomeEvidence) -> (r: Option<
    CredentialIdentity,
>)
    ensures
        credential_of(r) == home_owner(style, state_dir@, evidence.directory@, evidence.auth@),
{
    match &evidence.directory {
        PathKind::Directory => {},
        _ => {
            return None;
        },
    }
    match read_chatgpt_credentials(auth_path(style, state_dir).as_str(), &evidence.auth) {
        Ok(document) => Some(document.identity),
        Err(_) => None,
    }
}

fn home_belongs_to(found: &Option<CredentialIdentity>, owner: &CredentialIdentity) -> (r: bool)
    ensures
        r == is_home_of(credential_of(*found), owner@),
{
    match found {
        None => false,
        Some(found) => match &owner.account_id {
            Some(id) => match &found.account_id {
                Some(other) => same_text(id.as_str(), other.as_str()),
                None => false,
            },
            None => match &owner.email {
                Some(email) => match &found.email {
                    Some(other) => same_ignoring_case(other.as_str(), email.as_str()),
                    None => false,
                },
                None => false,
            },
        },
    }
}

/// Tells which managed account an owner is: the one in whose home its
/// credentials stand, if that is one only.
pub fn match_managed_owner(
    style: PathStyle,
    identity: &CredentialIdentity,
    accounts: &Vec<AccountRecord>,
    evidence: &Vec<HomeEvidence>,
) -> (r: CredentialOwner)
    requires
        evidence@.len() == accounts@.len(),
    ensures
        r == managed_owner(style, identity@, accounts@, evidence@),
{
    let mut ids: Vec<u128> = Vec::new();
    let mut i: usize = 0;
    assert(accounts@.take(0) =~= Seq::empty());
    while i < accounts.len()
        invariant
            evidence@.len() == accounts@.len(),
            i <= accounts@.len(),
            ids@ == homes_of(style, identity@, accounts@.take(i as int), evidence@),
        decreases accounts@.len() - i,
    {
        assert(accounts@.take(i + 1).drop_last() =~= accounts@.take(i as int));
        let found = find_home_owner(style, accounts[i].state_dir.as_str(), &evidence[i]);
        if home_belongs_to(&found, identity) {
            ids.push(accounts[i].id);
        }
        i = i + 1;
    }
    assert(accounts@.take(i as int) =~= accounts@);
    if ids.len() == 1 {
        CredentialOwner::Managed(ids[0])
    } else if ids.len() == 0 {
        CredentialOwner::Unmanaged
    } else {
        CredentialOwner::Ambiguous
    }
}

/// What has a part in telling an owner: the identifier of an account, its home,
/// and what stands there.
pub struct HomeModel {
    pub id: u128,
    pub state_dir: Seq<char>,
    pub directory: KindModel,
    pub auth: ReadModel,
}

/// What has a part in telling an owner of every account of a list.
pub open spec fn home_models(
    accounts: Seq<AccountRecord>,
    evidence: Seq<HomeEvidence>,
) -> Seq<HomeModel> {
    Seq::new(
        accounts.len(),
        |i: int|
            HomeModel {
                id: accounts[i].id,
                state_dir: accounts[i].state_dir@,
                directory: evidence[i].directory@,
                auth: evidence[i].auth@,
            },
    )
}

/// Whether the credentials of an owner stand in a home.
pub open spec fn is_own_home(style: PathStyle, owner: CredentialModel, home: HomeModel) -> bool {
    is_home_of(home_owner(style, home.state_dir, home.directory, home.auth), owner)
}

/// The accounts of the homes in which the credentials of an owner stand.
pub open spec fn own_homes(
    style: PathStyle,
    owner: CredentialModel,
    homes: Seq<HomeModel>,
) -> Seq<u128>
    decreases homes.len(),
{
    if homes.len() == 0 {
        Seq::empty()
    } else {
        let before = own_homes(style, owner, homes.drop_last());
        if is_own_home(style, owner, homes.last()) {
            before.push(homes.last().id)
        } else {
            before
        }
    }
}

/// Whose credentials they are rests on the identifiers of the accounts and on
/// what stands in their homes alone: neither on names, on whether an account is
/// enabled, on its cache, nor on the order of the list.
pub proof fn lemma_owner_ignores_names_and_order(
    style: PathStyle,
    owner: CredentialModel,
    accounts: Seq<AccountRecord>,
    evidence: Seq<HomeEvidence>,
    others: Seq<AccountRecord>,
    other_evidence: Seq<HomeEvidence>,
)
    requires
        home_models(accounts, evidence).to_multiset() == home_models(
            others,
            other_evidence,
        ).to_multiset(),
    ensures
        managed_owner(style, owner, accounts, evidence) == managed_owner(
            style,
            owner,
            others,
            other_evidence,
        ),
{
    broadcast use vstd::seq_lib::group_to_multiset_ensures;

    lemma_homes_by_models(style, owner, accounts, evidence);
    lemma_homes_by_models(style, owner, others, other_evidence);
    let left = home_models(accounts, evidence);
    let right = home_models(others, other_evidence);
    lemma_own_homes_ignore_order(style, owner, left, right);
    let one = own_homes(style, owner, left);
    let two = own_homes(style, owner, right);
    assert(one.len() == one.to_multiset().len());
    assert(two.len() == two.to_multiset().len());
    if one.len() == 1 {
        assert(one.contains(one[0]));
        assert(two.to_multiset().count(one[0]) > 0);
        assert(two.contains(one[0]));
    }
}

proof fn lemma_homes_by_models(
    style: PathStyle,
    owner: CredentialModel,
    accounts: Seq<AccountRecord>,
    evidence: Seq<HomeEvidence>,
)
    ensures
        homes_of(style, owner, accounts, evidence) == own_homes(
            style,
            owner,
            home_models(accounts, evidence),
        ),
    decreases accounts.len(),
{
    if accounts.len() > 0 {
        lemma_homes_by_models(style, owner, accounts.drop_last(), evidence);
        assert(home_models(accounts, evidence).drop_last() =~= home_models(
            accounts.drop_last(),
            evidence,
        ));
    }
}

/// One home more or less is one account more or less where it is the owner's.
proof fn lemma_own_homes_without(
    style: PathStyle,
    owner: CredentialModel,
    homes: Seq<HomeModel>,
    k: int,
)
    requires
        0 <= k < homes.len(),
    ensures
        own_homes(style, owner, homes).to_multiset() == (if is_own_home(style, owner, homes[k]) {
            own_homes(style, owner, homes.remove(k)).to_multiset().insert(homes[k].id)
        } else {
            own_homes(style, owner, homes.remove(k)).to_multiset()
        }),
    decreases homes.len(),
{
    broadcast use vstd::seq_lib::group_to_multiset_ensures;

    let less = homes.remove(k);
    if k == homes.len() - 1 {
        assert(less =~= homes.drop_last());
    } else {
        lemma_own_homes_without(style, owner, homes.drop_last(), k);
        assert(less.drop_last() =~= homes.drop_last().remove(k));
        assert(less.last() == homes.last());
        let inner = own_homes(style, owner, less.drop_last()).to_multiset();
        if is_own_home(style, owner, homes[k]) && is_own_home(style, owner, homes.last()) {
            assert(inner.insert(homes[k].id).insert(homes.last().id) =~= inner.insert(
                homes.last().id,
            ).insert(homes[k].id));
        }
    }
}

proof fn lemma_own_homes_ignore_order(
    style: PathStyle,
    owner: CredentialModel,
    left: Seq<HomeModel>,
    right: Seq<HomeModel>,
)
    requires
        left.to_multiset() == right.to_multiset(),
    ensures
        own_homes(style, owner, left).to_multiset() == own_homes(style, owner, right).to_multiset(),
    decreases left.len(),
{
    broadcast use vstd::seq_lib::group_to_multiset_ensures;

    assert(left.len() == left.to_multiset().len());
    assert(right.len() == right.to_multiset().len());
    if left.len() > 0 {
        let last = left.len() - 1;
        let home = left[last];
        assert(left.contains(home));
        assert(right.to_multiset().count(home) > 0);
        let k = choose|k: int| 0 <= k < right.len() && right[k] == home;
        assert(left.remove(last).to_multiset() =~= right.remove(k).to_multiset());
        lemma_own_homes_ignore_order(style, owner, left.remove(last), right.remove(k));
        lemma_own_homes_without(style, owner, left, last);
        lemma_own_homes_without(style, owner, right, k);
    } else {
        assert(left =~= right);
    }
}

/// An owner is told only where its credentials stand in exactly one home, and
/// then it is the account of that home.
pub proof fn lemma_owner_is_unique(
    style: PathStyle,
    owner: CredentialModel,
    accounts: Seq<AccountRecord>,
    evidence: Seq<HomeEvidence>,
    i: int,
    j: int,
)
    requires
        0 <= i < j < accounts.len(),
        is_home_of(
            home_owner(
                style,
                accounts[i].state_dir@,
                evidence[i].directory@,
                evidence[i].auth@,
            ),
            owner,
        ),
        is_home_of(
            home_owner(
                style,
                accounts[j].state_dir@,
                evidence[j].directory@,
                evidence[j].auth@,
            ),
            owner,
        ),
    ensures
        managed_owner(style, owner, accounts, evidence) == CredentialOwner::Ambiguous,
{
    lemma_homes_grow(style, owner, accounts, evidence, i);
    lemma_homes_grow(style, owner, accounts, evidence, j);
    assert(homes_of(style, owner, accounts.take(i + 1), evidence).len() >= 1) by {
        assert(accounts.take(i + 1).drop_last() =~= accounts.take(i));
    }
    lemma_homes_grow(style, owner, accounts.take(j), evidence, i);
    assert(accounts.take(j).take(i + 1) =~= accounts.take(i + 1));
    assert(accounts.take(j + 1).drop_last() =~= accounts.take(j));
}

proof fn lemma_homes_grow(
    style: PathStyle,
    owner: CredentialModel,
    accounts: Seq<AccountRecord>,
    evidence: Seq<HomeEvidence>,
    i: int,
)
    requires
        0 <= i < accounts.len(),
    ensures
        homes_of(style, owner, accounts.take(i + 1), evidence).len() <= homes_of(
            style,
            owner,
            accounts,
            evidence,
        ).len(),
    decreases accounts.len(),
{
    if i + 1 == accounts.len() {
        assert(accounts.take(i + 1) =~= accounts);
    } else {
        lemma_homes_grow(style, owner, accounts.drop_last(), evidence, i);
        assert(accounts.drop_last().take(i + 1) =~= accounts.take(i + 1));
    }
}

/// An account that was told as the owner has the owner's credentials in its home.
pub proof fn lemma_managed_owner_has_the_credentials(
    style: PathStyle,
    owner: CredentialModel,
    accounts: Seq<AccountRecord>,
    evidence: Seq<HomeEvidence>,
    id: u128,
)
    requires
        managed_owner(style, owner, accounts, evidence) == CredentialOwner::Managed(id),
    ensures
        exists|i: int|
            0 <= i < accounts.len() && (#[trigger] accounts[i]).id == id && is_home_of(
                home_owner(
                    style,
                    accounts[i].state_dir@,
                    evidence[i].directory@,
                    evidence[i].auth@,
                ),
                owner,
            ),
{
    lemma_home_of_each(style, owner, accounts, evidence, 0);
}

proof fn lemma_home_of_each(
    style: PathStyle,
    owner: CredentialModel,
    accounts: Seq<AccountRecord>,
    evidence: Seq<HomeEvidence>,
    k: int,
)
    requires
        0 <= k < homes_of(style, owner, accounts, evidence).len(),
    ensures
        exists|i: int|
            0 <= i < accounts.len() && (#[trigger] accounts[i]).id == homes_of(
                style,
                owner,
                accounts,
                evidence,
            )[k] && is_home_of(
                home_owner(
                    style,
                    accounts[i].state_dir@,
                    evidence[i].directory@,
                    evidence[i].auth@,
                ),
                owner,
            ),
    decreases accounts.len(),
{
    if accounts.len() > 0 {
        let front = accounts.drop_last();
        let before = homes_of(style, owner, front, evidence);
        if k < before.len() {
            lemma_home_of_each(style, owner, front, evidence, k);
            let i = choose|i: int|
                0 <= i < front.len() && (#[trigger] front[i]).id == before[k] && is_home_of(
                    home_owner(
                        style,
                        front[i].state_dir@,
                        evidence[i].directory@,
                        evidence[i].auth@,
                    ),
                    owner,
                );
            assert(accounts[i] == front[i]);
        } else {
            assert(accounts[accounts.len() - 1].id == accounts.last().id);
        }
    }
}

/// Whether a line of a configuration asks for credentials to be kept by the system.
pub open spec fn asks_for_keyring(line: Seq<char>) -> bool {
    let lower = lowered(trimmed(line));
    begins(lower, "cli_auth_credentials_store"@) && (holds(lower, "keyring"@) || holds(
        lower,
        "keychain"@,
    ) || holds(lower, "wincred"@) || holds(lower, "credential_manager"@))
}

/// Whether a configuration asks for credentials to be kept by the system.
pub open spec fn uses_keyring(config: Seq<char>) -> bool {
    exists|i: int|
        0 <= i < split(config, Separator::Only('\n')).len() && asks_for_keyring(
            #[trigger] split(config, Separator::Only('\n'))[i],
        )
}

/// Whether the configuration of the desktop application rules a switch out.
pub open spec fn storage_is_unsupported(config: Option<(u64, String)>) -> bool {
    config matches Some((size, text)) && size <= MAX_AUTH_BYTES && uses_keyring(text@)
}

fn line_asks_for_keyring(line: &str) -> (r: bool)
    ensures
        r == asks_for_keyring(line@),
{
    let lower = lower_text(trim_text(line).as_str());
    let lower = lower.as_str();
    starts_with_text(lower, "cli_auth_credentials_store") && (contains_text(lower, "keyring")
        || contains_text(lower, "keychain") || contains_text(lower, "wincred") || contains_text(
        lower,
        "credential_manager",
    ))
}

fn config_uses_keyring(config: &str) -> (r: bool)
    ensures
        r == uses_keyring(config@),
{
    let lines = split_text(config, Separator::Only('\n'));
    let ghost all = split(config@, Separator::Only('\n'));
    let mut i: usize = 0;
    while i < lines.len()
        invariant
            all == texts(lines@),
            all == split(config@, Separator::Only('\n')),
            i <= lines@.len(),
            forall|j: int| 0 <= j < i ==> !asks_for_keyring(#[trigger] all[j]),
        decreases lines@.len() - i,
    {
        if line_asks_for_keyring(lines[i].as_str()) {
            assert(all[i as int] == lines@[i as int]@);
            return true;
        }
        assert(all[i as int] == lines@[i as int]@);
        i = i + 1;
    }
    false
}

/// Refuses a configuration that has credentials kept by the system.
pub fn ensure_supported_global_storage(config: &Option<(u64, String)>) -> (r: Result<(), AppError>)
    ensures
        match r {
            Ok(_) => !storage_is_unsupported(*config),
            Err(e) => storage_is_unsupported(*config) && e@ == ErrorModel::DesktopSwitch(
                "检测到全局 Codex 使用系统 Keychain/凭据管理器；当前版本只支持文件型 auth.json"@,
            ),
        },
{
    if let Some((size, text)) = config {
        if *size <= MAX_AUTH_BYTES && config_uses_keyring(text.as_str()) {
            return Err(
                AppError::DesktopSwitch(
                    "检测到全局 Codex 使用系统 Keychain/凭据管理器；当前版本只支持文件型 auth.json".to_owned(),
                ),
            );
        }
    }
    Ok(())
}

/// Whether the home of the desktop application is that of a managed account.
pub open spec fn is_managed_home(
    style: PathStyle,
    global_home: Seq<char>,
    accounts: Seq<AccountRecord>,
) -> bool {
    exists|i: int|
        0 <= i < accounts.len() && same_place(
            style,
            (#[trigger] accounts[i]).state_dir@,
            global_home,
        )
}

/// Why the home of the desktop application is not accepted.
pub open spec fn home_fault(
    style: PathStyle,
    global_home: Seq<char>,
    accounts: Seq<AccountRecord>,
) -> Option<ErrorModel> {
    if !is_absolute_path(style, global_home) {
        Some(ErrorModel::DesktopSwitch("全局 Codex Home 必须是绝对路径"@))
    } else if is_managed_home(style, global_home, accounts) {
        Some(ErrorModel::DesktopSwitch("全局 Codex Home 不能与任何受管账号目录相同"@))
    } else {
        None
    }
}

/// Refuses a home of the desktop application that is relative or managed.
pub fn ensure_global_home(style: PathStyle, global_home: &str, accounts: &Vec<AccountRecord>) -> (r:
    Result<(), AppError>)
    ensures
        match r {
            Ok(_) => home_fault(style, global_home@, accounts@) is None,
            Err(e) => home_fault(style, global_home@, accounts@) == Some(e@),
        },
{
    if !is_absolute(style, global_home) {
        return Err(AppError::DesktopSwitch("全局 Codex Home 必须是绝对路径".to_owned()));
    }
    let mut i: usize = 0;
    while i < accounts.len()
        invariant
            i <= accounts@.len(),
            is_absolute_path(style, global_home@),
            forall|j: int|
                0 <= j < i ==> !same_place(
                    style,
                    (#[trigger] accounts@[j]).state_dir@,
                    global_home@,
                ),
        decreases accounts@.len() - i,
    {
        if same_path(style, accounts[i].state_dir.as_str(), global_home) {
            assert(same_place(style, accounts@[i as int].state_dir@, global_home@));
            return Err(
                AppError::DesktopSwitch("全局 Codex Home 不能与任何受管账号目录相同".to_owned()),
            );
        }
        i = i + 1;
    }
    Ok(())
}

/// Reads the credentials of an account that a switch goes to.
pub fn validate_target(style: PathStyle, account: &AccountRecord, evidence: &HomeEvidence) -> (r:
    Result<CredentialIdentity, AppError>)
    ensures
        match directory_fault(evidence.directory@, account.state_dir@, "目标账号状态目录"@) {
            Some(fault) => r matches Err(e) && e@ == fault,
            None => match chatgpt_document(
                auth_place(style, account.state_dir@),
                evidence.auth@,
            ) {
                Ok(document) => r matches Ok(identity) && identity@ == document.1,
                Err(fault) => r matches Err(e) && e@ == fault,
            },
        },
{
    match ensure_ordinary_directory(
        &evidence.directory,
        account.state_dir.as_str(),
        "目标账号状态目录",
    ) {
        Ok(_) => {},
        Err(e) => {
            return Err(e);
        },
    }
    match read_chatgpt_credentials(
        auth_path(style, account.state_dir.as_str()).as_str(),
        &evidence.auth,
    ) {
        Ok(document) => Ok(document.identity),
        Err(e) => Err(e),
    }
}

/// Refuses to restrict a credential path that is no file itself.
pub fn harden_auth_file(path: &str, kind: &PathKind) -> (r: Result<(), AppError>)
    ensures
        match kind@ {
            KindModel::File => r is Ok,
            KindModel::Unreadable(words) => r matches Err(e) && e@ == ErrorModel::Io(words),
            _ => r matches Err(e) && e@ == ErrorModel::Storage("凭据路径不是普通文件："@ + path@),
        },
{
    match kind {
        PathKind::File => Ok(()),
        PathKind::Unreadable(words) => Err(AppError::Io(words.clone())),
        _ => Err(with_path("凭据路径不是普通文件：", path)),
    }
}

/// Whose the credentials of the desktop application are.
pub open spec fn current_owner(
    style: PathStyle,
    current: Option<Seq<u8>>,
    accounts: Seq<AccountRecord>,
    evidence: Seq<HomeEvidence>,
) -> CredentialOwner {
    match current {
        None => CredentialOwner::Missing,
        Some(bytes) => match owner_in(bytes) {
            Some(owner) => managed_owner(style, owner, accounts, evidence),
            None => CredentialOwner::Unmanaged,
        },
    }
}

/// The bytes of the credentials of the desktop application, where it has any.
pub open spec fn current_bytes(
    style: PathStyle,
    global_home: Seq<char>,
    auth: Option<AuthRead>,
) -> Result<Option<Seq<u8>>, ErrorModel> {
    match auth {
        None => Ok(None),
        Some(read) => match raw_auth(auth_place(style, global_home), read@) {
            Ok(bytes) => Ok(Some(bytes)),
            Err(e) => Err(e),
        },
    }
}

/// What an optional list of bytes says.
pub open spec fn bytes_of(value: Option<Vec<u8>>) -> Option<Seq<u8>> {
    match value {
        Some(bytes) => Some(bytes@),
        None => None,
    }
}

/// The credentials of the desktop application and their owner.
struct Current {
    bytes: Option<Vec<u8>>,
    identity: Option<CredentialIdentity>,
    owner: CredentialOwner,
}

fn read_current(
    style: PathStyle,
    global_home: &str,
    auth: &Option<AuthRead>,
    accounts: &Vec<AccountRecord>,
    evidence: &Vec<HomeEvidence>,
) -> (r: Result<Current, AppError>)
    requires
        evidence@.len() == accounts@.len(),
    ensures
        match current_bytes(style, global_home@, *auth) {
            Ok(bytes) => r matches Ok(current) && bytes_of(current.bytes) == bytes && credential_of(
                current.identity,
            ) == (match bytes {
                Some(b) => owner_in(b),
                None => None,
            }) && current.owner == current_owner(style, bytes, accounts@, evidence@),
            Err(fault) => r matches Err(e) && e@ == fault,
        },
{
    match auth {
        None => Ok(Current { bytes: None, identity: None, owner: CredentialOwner::Missing }),
        Some(read) => {
            match read_current_credentials(auth_path(style, global_home).as_str(), read) {
                Ok(document) => {
                    let owner = match &document.identity {
                        Some(identity) => match_managed_owner(style, identity, accounts, evidence),
                        None => CredentialOwner::Unmanaged,
                    };
                    Ok(
                        Current {
                            bytes: Some(document.bytes),
                            identity: document.identity,
                            owner,
                        },
                    )
                },
                Err(e) => Err(e),
            }
        },
    }
}

/// Tells whose the credentials of the desktop application are.
pub fn inspect_global(
    style: PathStyle,
    global_home: &str,
    accounts: &Vec<AccountRecord>,
    evidence: &Vec<HomeEvidence>,
    global: &GlobalEvidence,
) -> (r: Result<DesktopCredentialInspection, AppError>)
    requires
        evidence@.len() == accounts@.len(),
    ensures
        match home_fault(style, global_home@, accounts@) {
            Some(fault) => r matches Err(e) && e@ == fault,
            None => if storage_is_unsupported(global.config) {
                r matches Err(e) && e@ == ErrorModel::DesktopSwitch(
                    "检测到全局 Codex 使用系统 Keychain/凭据管理器；当前版本只支持文件型 auth.json"@,
                )
            } else {
                match current_bytes(style, global_home@, global.auth) {
                    Err(fault) => r matches Err(e) && e@ == fault,
                    Ok(bytes) => r matches Ok(inspection) && inspection.owner == current_owner(
                        style,
                        bytes,
                        accounts@,
                        evidence@,
                    ) && credential_of(inspection.identity) == (match bytes {
                        Some(b) => owner_in(b),
                        None => None,
                    }),
                }
            },
        },
{
    match ensure_global_home(style, global_home, accounts) {
        Ok(_) => {},
        Err(e) => {
            return Err(e);
        },
    }
    match ensure_supported_global_storage(&global.config) {
        Ok(_) => {},
        Err(e) => {
            return Err(e);
        },
    }
    match read_current(style, global_home, &global.auth, accounts, evidence) {
        Ok(current) => Ok(
            DesktopCredentialInspection { owner: current.owner, identity: current.identity },
        ),
        Err(e) => Err(e),
    }
}

/// One piece of work on files. Work stops at the first piece that fails.
#[derive(Debug, PartialEq, Eq)]
pub enum FileStep {
    /// Make a directory with all above it where it is missing, for the user alone.
    PrepareDirectory(String),
    /// Make a directory that does not exist yet, for the user alone.
    CreateDirectory(String),
    /// Fail unless a directory itself stands at the path.
    RequireDirectory(String, &'static str),
    /// Copy a credential file, where there is one, as `Replace` writes.
    CopyIfPresent(String, String),
    /// Write a file for the user alone beside the path and let it take the path at once.
    Replace(String, Vec<u8>),
    /// Delete a file, where there is one; fail where something else stands there.
    RemoveIfPresent(String),
}

/// What a piece of work says.
pub enum FileStepModel {
    PrepareDirectory(Seq<char>),
    CreateDirectory(Seq<char>),
    RequireDirectory(Seq<char>, Seq<char>),
    CopyIfPresent(Seq<char>, Seq<char>),
    Replace(Seq<char>, Seq<u8>),
    RemoveIfPresent(Seq<char>),
}

impl FileStep {
    /// What the piece of work says.
    pub open spec fn view(self) -> FileStepModel {
        match self {
            FileStep::PrepareDirectory(path) => FileStepModel::PrepareDirectory(path@),
            FileStep::CreateDirectory(path) => FileStepModel::CreateDirectory(path@),
            FileStep::RequireDirectory(path, label) => FileStepModel::RequireDirectory(
                path@,
                label@,
            ),
            FileStep::CopyIfPresent(from, to) => FileStepModel::CopyIfPresent(from@, to@),
            FileStep::Replace(path, bytes) => FileStepModel::Replace(path@, bytes@),
            FileStep::RemoveIfPresent(path) => FileStepModel::RemoveIfPresent(path@),
        }
    }
}

/// What a list of work says.
pub open spec fn steps_model(steps: Seq<FileStep>) -> Seq<FileStepModel> {
    Seq::new(steps.len(), |i: int| steps[i]@)
}

/// What is needed to give the desktop application the credentials of an account.
#[derive(Debug, PartialEq, Eq)]
pub struct Replacement {
    pub global_auth_path: String,
    pub target_bytes: Vec<u8>,
    pub current_bytes: Option<Vec<u8>>,
    pub previous_owner: CredentialOwner,
}

/// What allows credentials to be put back as they were.
#[derive(Debug, PartialEq, Eq)]
pub struct SwitchReceipt {
    pub global_auth_path: String,
    pub previous_global: Option<Vec<u8>>,
    pub recovery_path: Option<String>,
    pub previous_owner: CredentialOwner,
}

/// Refuses a replacement for what can be told before any credentials are read.
pub fn check_replacement(
    style: PathStyle,
    target: &AccountRecord,
    target_directory: &PathKind,
    accounts: &Vec<AccountRecord>,
    global_home: &str,
    config: &Option<(u64, String)>,
) -> (r: Result<(), AppError>)
    ensures
        match home_fault(style, global_home@, accounts@) {
            Some(fault) => r matches Err(e) && e@ == fault,
            None => match directory_fault(
                target_directory@,
                target.state_dir@,
                "目标账号状态目录"@,
            ) {
                Some(fault) => r matches Err(e) && e@ == fault,
                None => if storage_is_unsupported(*config) {
                    r matches Err(e) && e@ == ErrorModel::DesktopSwitch(
                        "检测到全局 Codex 使用系统 Keychain/凭据管理器；当前版本只支持文件型 auth.json"@,
                    )
                } else {
                    r is Ok
                },
            },
        },
{
    match ensure_global_home(style, global_home, accounts) {
        Ok(_) => {},
        Err(e) => {
            return Err(e);
        },
    }
    match ensure_ordinary_directory(
        target_directory,
        target.state_dir.as_str(),
        "目标账号状态目录",
    ) {
        Ok(_) => {},
        Err(e) => {
            return Err(e);
        },
    }
    ensure_supported_global_storage(config)
}

/// Reads what a replacement needs to know.
pub fn assess_replacement(
    style: PathStyle,
    target: &AccountRecord,
    target_auth: &AuthRead,
    accounts: &Vec<AccountRecord>,
    evidence: &Vec<HomeEvidence>,
    global_home: &str,
    global_auth: &Option<AuthRead>,
) -> (r: Result<Replacement, AppError>)
    requires
        evidence@.len() == accounts@.len(),
    ensures
        match chatgpt_document(auth_place(style, target.state_dir@), target_auth@) {
            Err(fault) => r matches Err(e) && e@ == fault,
            Ok(document) => match current_bytes(style, global_home@, *global_auth) {
                Err(fault) => r matches Err(e) && e@ == fault,
                Ok(bytes) => r matches Ok(replacement) && replacement.global_auth_path@
                    == auth_place(style, global_home@) && replacement.target_bytes@ == document.0
                    && bytes_of(replacement.current_bytes) == bytes && replacement.previous_owner
                    == current_owner(style, bytes, accounts@, evidence@),
            },
        },
{
    let document = match read_chatgpt_credentials(
        auth_path(style, target.state_dir.as_str()).as_str(),
        target_auth,
    ) {
        Ok(document) => document,
        Err(e) => {
            return Err(e);
        },
    };
    match read_current(style, global_home, global_auth, accounts, evidence) {
        Ok(current) => Ok(
            Replacement {
                global_auth_path: auth_path(style, global_home),
                target_bytes: document.bytes,
                current_bytes: current.bytes,
                previous_owner: current.owner,
            },
        ),
        Err(e) => Err(e),
    }
}

/// The name of a directory for the copies of one switch.
pub fn recovery_name(stamp: &str, id: u128) -> (r: String)
    ensures
        r@ == stamp@ + "-"@ + id_words(id),
{
    let mut out = stamp.to_owned();
    out.append("-");
    out.append(write_id(id).as_str());
    out
}

/// The file that keeps what stood in a managed home before.
pub open spec fn saved_name(id: u128) -> Seq<char> {
    "managed-"@ + id_words(id) + "-previous.json"@
}

fn saved_file_name(id: u128) -> (r: String)
    ensures
        r@ == saved_name(id),
{
    let mut out = "managed-".to_owned();
    out.append(write_id(id).as_str());
    out.append("-previous.json");
    out
}

/// The file beside another that is written before it takes the other's place.
pub open spec fn temp_name(id: u128) -> Seq<char> {
    ".auth-switch-"@ + id_words(id) + ".tmp"@
}

/// Names the file that is written before it takes the place of another.
pub fn temp_path(style: PathStyle, path: &str, id: u128) -> (r: Result<String, AppError>)
    ensures
        match parent_of(style, path@) {
            Some(dir) => r matches Ok(temp) && temp@ == below(style, dir, temp_name(id)),
            None => r matches Err(e) && e@ == ErrorModel::Storage("凭据路径没有父目录"@),
        },
{
    match parent(style, path) {
        Some(dir) => {
            let mut name = ".auth-switch-".to_owned();
            name.append(write_id(id).as_str());
            name.append(".tmp");
            Ok(join(style, dir.as_str(), name.as_str()))
        },
        None => Err(AppError::Storage("凭据路径没有父目录".to_owned())),
    }
}

/// The work that puts the credentials of a managed account back into its home,
/// after a copy of what stood there.
pub open spec fn save_back(
    style: PathStyle,
    id: u128,
    state_dir: Seq<char>,
    recovery_dir: Seq<char>,
    current: Seq<u8>,
) -> Seq<FileStepModel> {
    seq![
        FileStepModel::RequireDirectory(state_dir, "当前受管账号状态目录"@),
        FileStepModel::CopyIfPresent(
            auth_place(style, state_dir),
            below(style, recovery_dir, saved_name(id)),
        ),
        FileStepModel::Replace(auth_place(style, state_dir), current),
    ]
}

/// The managed account that credentials belong to, and its home.
pub open spec fn owner_home(owner: CredentialOwner, accounts: Seq<AccountRecord>) -> Option<
    (u128, Seq<char>),
> {
    match owner {
        CredentialOwner::Managed(id) => match crate::account::place_of(accounts, id) {
            Some(i) => Some((id, accounts[i].state_dir@)),
            None => None,
        },
        _ => None,
    }
}

/// Whether the managed account that current credentials belong to is not there.
pub open spec fn owner_is_gone(
    current: Option<Seq<u8>>,
    owner: CredentialOwner,
    accounts: Seq<AccountRecord>,
) -> bool {
    current is Some && owner is Managed && owner_home(owner, accounts) is None
}

/// The work of a replacement: first a copy of what the desktop application has,
/// then its way back into a managed home where it belongs to one, and last the
/// replacement itself.
pub open spec fn replacement_steps(
    style: PathStyle,
    global: Seq<char>,
    target: Seq<u8>,
    current: Option<Seq<u8>>,
    owner: CredentialOwner,
    accounts: Seq<AccountRecord>,
    recovery_root: Seq<char>,
    recovery_dir: Seq<char>,
) -> Seq<FileStepModel> {
    match current {
        None => seq![FileStepModel::Replace(global, target)],
        Some(bytes) => {
            let copied = seq![
                FileStepModel::PrepareDirectory(recovery_root),
                FileStepModel::CreateDirectory(recovery_dir),
                FileStepModel::Replace(below(style, recovery_dir, "auth.json"@), bytes),
            ];
            let saved = match owner_home(owner, accounts) {
                Some((id, state_dir)) => save_back(style, id, state_dir, recovery_dir, bytes),
                None => Seq::empty(),
            };
            (copied + saved).push(FileStepModel::Replace(global, target))
        },
    }
}

/// Lays out the work of a replacement. The copies of what is there now go to a
/// directory of the given name, which nothing else has.
pub fn replace_global_credentials(
    style: PathStyle,
    replacement: &Replacement,
    accounts: &Vec<AccountRecord>,
    recovery_root: &str,
    recovery_name: &str,
) -> (r: Result<(Vec<FileStep>, SwitchReceipt), AppError>)
    ensures
        match r {
            Ok((steps, receipt)) => !owner_is_gone(
                bytes_of(replacement.current_bytes),
                replacement.previous_owner,
                accounts@,
            ) && steps_model(steps@) == replacement_steps(
                style,
                replacement.global_auth_path@,
                replacement.target_bytes@,
                bytes_of(replacement.current_bytes),
                replacement.previous_owner,
                accounts@,
                recovery_root@,
                below(style, recovery_root@, recovery_name@),
            ) && receipt.global_auth_path == replacement.global_auth_path && bytes_of(
                receipt.previous_global,
            ) == bytes_of(replacement.current_bytes) && receipt.previous_owner
                == replacement.previous_owner && text_of(receipt.recovery_path) == (
            match replacement.current_bytes {
                Some(_) => Some(
                    below(style, below(style, recovery_root@, recovery_name@), "auth.json"@),
                ),
                None => None,
            }),
            Err(e) => owner_is_gone(
                bytes_of(replacement.current_bytes),
                replacement.previous_owner,
                accounts@,
            ) && e@ == ErrorModel::Storage("已匹配账号在配置中消失"@),
        },
{
    let directory = join(style, recovery_root, recovery_name);
    let mut steps: Vec<FileStep> = Vec::new();
    let mut recovery_path: Option<String> = None;
    let mut previous_global: Option<Vec<u8>> = None;
    if let Some(bytes) = &replacement.current_bytes {
        let path = auth_path(style, directory.as_str());
        steps.push(FileStep::PrepareDirectory(recovery_root.to_owned()));
        steps.push(FileStep::CreateDirectory(directory.clone()));
        steps.push(FileStep::Replace(path.clone(), copy_bytes(bytes)));
        assert(steps_model(steps@) =~= seq![
            FileStepModel::PrepareDirectory(recovery_root@),
            FileStepModel::CreateDirectory(directory@),
            FileStepModel::Replace(path@, bytes@),
        ]);
        let ghost copied = steps_model(steps@);
        if let CredentialOwner::Managed(id) = replacement.previous_owner {
            let at: usize = match crate::account::find_account(accounts, id) {
                Some(at) => at,
                None => {
                    return Err(AppError::Storage("已匹配账号在配置中消失".to_owned()));
                },
            };
            let state_dir = accounts[at].state_dir.clone();
            let owner_path = auth_path(style, state_dir.as_str());
            let saved = join(style, directory.as_str(), saved_file_name(id).as_str());
            steps.push(FileStep::RequireDirectory(state_dir, "当前受管账号状态目录"));
            steps.push(FileStep::CopyIfPresent(owner_path.clone(), saved));
            steps.push(FileStep::Replace(owner_path, copy_bytes(bytes)));
            assert(steps_model(steps@) =~= copied + save_back(
                style,
                id,
                accounts@[at as int].state_dir@,
                directory@,
                bytes@,
            ));
        } else {
            assert(copied + Seq::<FileStepModel>::empty() =~= copied);
        }
        recovery_path = Some(path);
        previous_global = Some(copy_bytes(bytes));
    }
    let ghost before = steps_model(steps@);
    steps.push(
        FileStep::Replace(
            replacement.global_auth_path.clone(),
            copy_bytes(&replacement.target_bytes),
        ),
    );
    assert(steps_model(steps@) =~= before.push(
        FileStepModel::Replace(replacement.global_auth_path@, replacement.target_bytes@),
    ));
    proof {
        if replacement.current_bytes is None {
            assert(steps_model(steps@) =~= seq![
                FileStepModel::Replace(replacement.global_auth_path@, replacement.target_bytes@),
            ]);
        }
    }
    Ok(
        (
            steps,
            SwitchReceipt {
                global_auth_path: replacement.global_auth_path.clone(),
                previous_global,
                recovery_path,
                previous_owner: replacement.previous_owner,
            },
        ),
    )
}

/// The work that puts credentials back as they were.
pub open spec fn rollback_step(global: Seq<char>, previous: Option<Seq<u8>>) -> FileStepModel {
    match previous {
        Some(bytes) => FileStepModel::Replace(global, bytes),
        None => FileStepModel::RemoveIfPresent(global),
    }
}

/// Lays out the work that puts credentials back as they were.
pub fn rollback_global_credentials(receipt: &SwitchReceipt) -> (r: FileStep)
    ensures
        r@ == rollback_step(receipt.global_auth_path@, bytes_of(receipt.previous_global)),
{
    match &receipt.previous_global {
        Some(bytes) => FileStep::Replace(receipt.global_auth_path.clone(), copy_bytes(bytes)),
        None => FileStep::RemoveIfPresent(receipt.global_auth_path.clone()),
    }
}

/// What files hold after a piece of work on them.
pub open spec fn after_step(files: Map<Seq<char>, Seq<u8>>, step: FileStepModel) -> Map<
    Seq<char>,
    Seq<u8>,
> {
    match step {
        FileStepModel::Replace(path, bytes) => files.insert(path, bytes),
        FileStepModel::CopyIfPresent(from, to) => if files.dom().contains(from) {
            files.insert(to, files[from])
        } else {
            files
        },
        FileStepModel::RemoveIfPresent(path) => files.remove(path),
        _ => files,
    }
}

/// What files hold after some work on them, piece by piece.
pub open spec fn after_steps(files: Map<Seq<char>, Seq<u8>>, steps: Seq<FileStepModel>) -> Map<
    Seq<char>,
    Seq<u8>,
>
    decreases steps.len(),
{
    if steps.len() == 0 {
        files
    } else {
        after_step(after_steps(files, steps.drop_last()), steps.last())
    }
}

/// What stands at a path, where anything does.
pub open spec fn content(files: Map<Seq<char>, Seq<u8>>, path: Seq<char>) -> Option<Seq<u8>> {
    if files.dom().contains(path) {
        Some(files[path])
    } else {
        None
    }
}

/// Whether some work leaves what stands at a path alone.
pub open spec fn spares(steps: Seq<FileStepModel>, path: Seq<char>) -> bool {
    forall|i: int| 0 <= i < steps.len() ==> spares_one(#[trigger] steps[i], path)
}

/// Whether a piece of work leaves what stands at a path alone.
pub open spec fn spares_one(step: FileStepModel, path: Seq<char>) -> bool {
    match step {
        FileStepModel::Replace(p, _) => p != path,
        FileStepModel::CopyIfPresent(_, to) => to != path,
        FileStepModel::RemoveIfPresent(p) => p != path,
        _ => true,
    }
}

/// Work that leaves a path alone does not change what stands there.
pub proof fn lemma_spared(
    files: Map<Seq<char>, Seq<u8>>,
    steps: Seq<FileStepModel>,
    path: Seq<char>,
)
    requires
        spares(steps, path),
    ensures
        content(after_steps(files, steps), path) == content(files, path),
    decreases steps.len(),
{
    if steps.len() > 0 {
        let front = steps.drop_last();
        assert forall|i: int| 0 <= i < front.len() implies spares_one(
            #[trigger] front[i],
            path,
        ) by {
            assert(spares_one(steps[i], path));
        }
        lemma_spared(files, front, path);
        assert(spares_one(steps[steps.len() - 1], path));
    }
}

/// The credential files of two places are two files.
pub proof fn lemma_auth_places_are_apart(style: PathStyle, a: Seq<char>, b: Seq<char>)
    requires
        !same_place(style, a, b),
    ensures
        auth_place(style, a) != auth_place(style, b),
{
    if auth_place(style, a) == auth_place(style, b) {
        lemma_below_keeps_places_apart(style, a, b, "auth.json"@);
    }
}

/// What is kept of a managed home never takes the name of a credential file.
proof fn lemma_saved_file_is_apart(style: PathStyle, dir: Seq<char>, id: u128, other: Seq<char>)
    ensures
        below(style, dir, saved_name(id)) != auth_place(style, other),
{
    reveal_strlit("auth.json");
    reveal_strlit("-previous.json");
    let saved = below(style, dir, saved_name(id));
    let auth = auth_place(style, other);
    assert(saved[saved.len() - 6] == 's');
    assert(auth[auth.len() - 6] == 'h');
}

/// The credentials of the desktop application change with the very last piece
/// of a replacement and not before, so that work that stops earlier leaves them.
pub proof fn lemma_replacement_comes_last(
    style: PathStyle,
    files: Map<Seq<char>, Seq<u8>>,
    global_home: Seq<char>,
    target: Seq<u8>,
    current: Option<Seq<u8>>,
    owner: CredentialOwner,
    accounts: Seq<AccountRecord>,
    recovery_root: Seq<char>,
    recovery_dir: Seq<char>,
    done: int,
)
    requires
        home_fault(style, global_home, accounts) is None,
        !same_place(style, recovery_dir, global_home),
        0 <= done < replacement_steps(
            style,
            auth_place(style, global_home),
            target,
            current,
            owner,
            accounts,
            recovery_root,
            recovery_dir,
        ).len(),
    ensures
        ({
            let global = auth_place(style, global_home);
            let steps = replacement_steps(
                style,
                global,
                target,
                current,
                owner,
                accounts,
                recovery_root,
                recovery_dir,
            );
            &&& content(after_steps(files, steps.take(done)), global) == content(files, global)
            &&& content(after_steps(files, steps), global) == Some(target)
        }),
{
    let global = auth_place(style, global_home);
    let steps = replacement_steps(
        style,
        global,
        target,
        current,
        owner,
        accounts,
        recovery_root,
        recovery_dir,
    );
    lemma_auth_places_are_apart(style, recovery_dir, global_home);
    if let Some((id, state_dir)) = owner_home(owner, accounts) {
        crate::account::lemma_place_of(accounts, id);
        let i = crate::account::place_of(accounts, id)->0;
        assert(!same_place(style, accounts[i].state_dir@, global_home));
        lemma_auth_places_are_apart(style, state_dir, global_home);
        lemma_saved_file_is_apart(style, recovery_dir, id, global_home);
    }
    let front = steps.take(done);
    assert forall|i: int| 0 <= i < front.len() implies spares_one(#[trigger] front[i], global) by {
        assert(front[i] == steps[i]);
    }
    lemma_spared(files, front, global);
    assert(steps.last() == FileStepModel::Replace(global, target));
}

/// From its third piece on a replacement has put a copy of the credentials that
/// were there into the recovery directory.
pub proof fn lemma_current_credentials_are_copied(
    style: PathStyle,
    files: Map<Seq<char>, Seq<u8>>,
    global_home: Seq<char>,
    target: Seq<u8>,
    bytes: Seq<u8>,
    owner: CredentialOwner,
    accounts: Seq<AccountRecord>,
    recovery_root: Seq<char>,
    recovery_dir: Seq<char>,
    done: int,
)
    requires
        !same_place(style, recovery_dir, global_home),
        owner_home(owner, accounts) matches Some((_, state_dir)) ==> !same_place(
            style,
            recovery_dir,
            state_dir,
        ),
        3 <= done <= replacement_steps(
            style,
            auth_place(style, global_home),
            target,
            Some(bytes),
            owner,
            accounts,
            recovery_root,
            recovery_dir,
        ).len(),
    ensures
        content(
            after_steps(
                files,
                replacement_steps(
                    style,
                    auth_place(style, global_home),
                    target,
                    Some(bytes),
                    owner,
                    accounts,
                    recovery_root,
                    recovery_dir,
                ).take(done),
            ),
            auth_place(style, recovery_dir),
        ) == Some(bytes),
    decreases done,
{
    let steps = replacement_steps(
        style,
        auth_place(style, global_home),
        target,
        Some(bytes),
        owner,
        accounts,
        recovery_root,
        recovery_dir,
    );
    let path = auth_place(style, recovery_dir);
    lemma_auth_places_are_apart(style, recovery_dir, global_home);
    if let Some((id, state_dir)) = owner_home(owner, accounts) {
        lemma_auth_places_are_apart(style, recovery_dir, state_dir);
        lemma_saved_file_is_apart(style, recovery_dir, id, recovery_dir);
    }
    let front = steps.take(done);
    assert(front.drop_last() =~= steps.take(done - 1));
    assert(front.last() == steps[done - 1]);
    if done == 3 {
        assert(steps[2] == FileStepModel::Replace(path, bytes));
    } else {
        lemma_current_credentials_are_copied(
            style,
            files,
            global_home,
            target,
            bytes,
            owner,
            accounts,
            recovery_root,
            recovery_dir,
            done - 1,
        );
        assert(spares_one(steps[done - 1], path));
    }
}

/// Credentials of an unknown or doubtful owner are never written into the home
/// of a managed account: only the credentials of the desktop application and
/// the copy in the recovery directory are written.
pub proof fn lemma_unknown_credentials_stay_out_of_homes(
    style: PathStyle,
    files: Map<Seq<char>, Seq<u8>>,
    global: Seq<char>,
    target: Seq<u8>,
    current: Option<Seq<u8>>,
    owner: CredentialOwner,
    accounts: Seq<AccountRecord>,
    recovery_root: Seq<char>,
    recovery_dir: Seq<char>,
    path: Seq<char>,
)
    requires
        !(owner is Managed),
        path != global,
        path != auth_place(style, recovery_dir),
    ensures
        content(
            after_steps(
                files,
                replacement_steps(
                    style,
                    global,
                    target,
                    current,
                    owner,
                    accounts,
                    recovery_root,
                    recovery_dir,
                ),
            ),
            path,
        ) == content(files, path),
{
    let steps = replacement_steps(
        style,
        global,
        target,
        current,
        owner,
        accounts,
        recovery_root,
        recovery_dir,
    );
    assert(spares(steps, path));
    lemma_spared(files, steps, path);
}

/// The credentials of a managed account come back into its home, and what stood
/// there before is kept in the recovery directory.
pub proof fn lemma_managed_credentials_are_saved_back(
    style: PathStyle,
    files: Map<Seq<char>, Seq<u8>>,
    global_home: Seq<char>,
    target: Seq<u8>,
    bytes: Seq<u8>,
    owner: CredentialOwner,
    accounts: Seq<AccountRecord>,
    recovery_root: Seq<char>,
    recovery_dir: Seq<char>,
)
    requires
        home_fault(style, global_home, accounts) is None,
        owner_home(owner, accounts) matches Some((_, state_dir)) && !same_place(
            style,
            recovery_dir,
            state_dir,
        ),
    ensures
        ({
            let (id, state_dir) = owner_home(owner, accounts)->0;
            let home = auth_place(style, state_dir);
            let done = after_steps(
                files,
                replacement_steps(
                    style,
                    auth_place(style, global_home),
                    target,
                    Some(bytes),
                    owner,
                    accounts,
                    recovery_root,
                    recovery_dir,
                ),
            );
            &&& content(done, home) == Some(bytes)
            &&& content(files, home) is Some ==> content(
                done,
                below(style, recovery_dir, saved_name(id)),
            ) == content(files, home)
        }),
{
    let (id, state_dir) = owner_home(owner, accounts)->0;
    let global = auth_place(style, global_home);
    let home = auth_place(style, state_dir);
    let saved = below(style, recovery_dir, saved_name(id));
    let copy = auth_place(style, recovery_dir);
    let steps = replacement_steps(
        style,
        global,
        target,
        Some(bytes),
        owner,
        accounts,
        recovery_root,
        recovery_dir,
    );
    crate::account::lemma_place_of(accounts, id);
    let i = crate::account::place_of(accounts, id)->0;
    assert(!same_place(style, accounts[i].state_dir@, global_home));
    lemma_auth_places_are_apart(style, state_dir, global_home);
    lemma_auth_places_are_apart(style, recovery_dir, state_dir);
    lemma_saved_file_is_apart(style, recovery_dir, id, global_home);
    lemma_saved_file_is_apart(style, recovery_dir, id, state_dir);
    lemma_saved_file_is_apart(style, recovery_dir, id, recovery_dir);
    assert(steps.len() == 7);
    assert(steps[0] is PrepareDirectory);
    assert(steps[1] is CreateDirectory);
    assert(steps[2] == FileStepModel::Replace(copy, bytes));
    assert(steps[3] is RequireDirectory);
    assert(steps[4] == FileStepModel::CopyIfPresent(home, saved));
    assert(steps[5] == FileStepModel::Replace(home, bytes));
    assert(steps[6] == FileStepModel::Replace(global, target));
    let four = steps.take(4);
    assert(spares(four, home)) by {
        assert forall|i: int| 0 <= i < four.len() implies spares_one(#[trigger] four[i], home) by {
            assert(four[i] == steps[i]);
        }
    }
    lemma_spared(files, four, home);
    assert(steps.take(5).drop_last() =~= four);
    assert(steps.take(6).drop_last() =~= steps.take(5));
    assert(steps.drop_last() =~= steps.take(6));
    let kept = after_steps(files, four);
    let copied = after_steps(files, steps.take(5));
    let saved_back = after_steps(files, steps.take(6));
    assert(copied == after_step(kept, steps[4]));
    assert(saved_back == after_step(copied, steps[5]));
    assert(after_steps(files, steps) == after_step(saved_back, steps[6]));
}

/// Whatever the desktop application had, or that it had nothing, is there again
/// after a replacement is rolled back.
pub proof fn lemma_rollback_restores(
    files: Map<Seq<char>, Seq<u8>>,
    replaced: Map<Seq<char>, Seq<u8>>,
    global: Seq<char>,
)
    ensures
        content(after_step(replaced, rollback_step(global, content(files, global))), global)
            == content(files, global),
{
}

/// Refuses to delete, in a rollback, what is no file itself.
pub fn check_removal(kind: &PathKind) -> (r: Result<(), AppError>)
    ensures
        match kind@ {
            KindModel::File => r is Ok,
            KindModel::Unreadable(words) => r matches Err(e) && e@ == ErrorModel::Io(words),
            _ => r matches Err(e) && e@ == ErrorModel::Storage("拒绝回滚非普通全局凭据文件"@),
        },
{
    match kind {
        PathKind::File => Ok(()),
        PathKind::Unreadable(words) => Err(AppError::Io(words.clone())),
        _ => Err(AppError::Storage("拒绝回滚非普通全局凭据文件".to_owned())),
    }
}

/// The pieces of writing a file at once, in their order.
#[derive(Debug, Clone, Copy, PartialEq, Eq, Structural)]
pub enum WriteOp {
    /// Make the file beside the path, which must not exist yet.
    CreateTemp,
    /// Keep it for the user alone.
    ProtectTemp,
    /// Write the bytes into it.
    FillTemp,
    /// See them safely stored.
    SyncTemp,
    /// Let it take the path.
    Rename,
    /// Keep the path for the user alone.
    ProtectTarget,
    /// See the name safely stored.
    SyncParent,
}

/// What comes after a piece of writing a file.
#[derive(Debug, PartialEq, Eq)]
pub enum WriteNext {
    Do(WriteOp),
    /// The end, and whether the file beside the path is to be deleted where it
    /// still is.
    Finish { clean_up: bool, result: Result<(), AppError> },
}

/// The piece after another.
pub open spec fn following(op: WriteOp) -> Option<WriteOp> {
    match op {
        WriteOp::CreateTemp => Some(WriteOp::ProtectTemp),
        WriteOp::ProtectTemp => Some(WriteOp::FillTemp),
        WriteOp::FillTemp => Some(WriteOp::SyncTemp),
        WriteOp::SyncTemp => Some(WriteOp::Rename),
        WriteOp::Rename => Some(WriteOp::ProtectTarget),
        WriteOp::ProtectTarget => Some(WriteOp::SyncParent),
        WriteOp::SyncParent => None,
    }
}

/// Goes on with writing a file after a piece of it. The first that fails ends
/// it, and a file beside the path that was made does not stay.
pub fn advance_write(op: WriteOp, outcome: Result<(), String>) -> (r: WriteNext)
    ensures
        match outcome {
            Ok(_) => match following(op) {
                Some(next) => r == WriteNext::Do(next),
                None => r matches WriteNext::Finish { clean_up, result } && clean_up
                    && result is Ok,
            },
            Err(words) => r matches WriteNext::Finish { clean_up, result } && clean_up == (op
                != WriteOp::CreateTemp) && (result matches Err(e) && e@ == ErrorModel::Io(words@)),
        },
{
    match outcome {
        Ok(_) => match op {
            WriteOp::CreateTemp => WriteNext::Do(WriteOp::ProtectTemp),
            WriteOp::ProtectTemp => WriteNext::Do(WriteOp::FillTemp),
            WriteOp::FillTemp => WriteNext::Do(WriteOp::SyncTemp),
            WriteOp::SyncTemp => WriteNext::Do(WriteOp::Rename),
            WriteOp::Rename => WriteNext::Do(WriteOp::ProtectTarget),
            WriteOp::ProtectTarget => WriteNext::Do(WriteOp::SyncParent),
            WriteOp::SyncParent => WriteNext::Finish { clean_up: true, result: Ok(()) },
        },
        Err(words) => WriteNext::Finish {
            clean_up: op != WriteOp::CreateTemp,
            result: Err(AppError::Io(words)),
        },
    }
}

/// What files hold after a piece of writing one.
pub open spec fn after_write(
    files: Map<Seq<char>, Seq<u8>>,
    op: WriteOp,
    path: Seq<char>,
    temp: Seq<char>,
    bytes: Seq<u8>,
) -> Map<Seq<char>, Seq<u8>> {
    match op {
        WriteOp::CreateTemp => files.insert(temp, Seq::empty()),
        WriteOp::FillTemp => files.insert(temp, bytes),
        WriteOp::Rename => files.insert(path, files[temp]).remove(temp),
        _ => files,
    }
}

/// What files hold when a piece of writing one begins.
pub open spec fn before_write(
    files: Map<Seq<char>, Seq<u8>>,
    op: WriteOp,
    path: Seq<char>,
    temp: Seq<char>,
    bytes: Seq<u8>,
) -> Map<Seq<char>, Seq<u8>> {
    let made = after_write(files, WriteOp::CreateTemp, path, temp, bytes);
    let filled = after_write(made, WriteOp::FillTemp, path, temp, bytes);
    let renamed = after_write(filled, WriteOp::Rename, path, temp, bytes);
    match op {
        WriteOp::CreateTemp => files,
        WriteOp::ProtectTemp | WriteOp::FillTemp => made,
        WriteOp::SyncTemp | WriteOp::Rename => filled,
        WriteOp::ProtectTarget | WriteOp::SyncParent => renamed,
    }
}

/// A piece begins with what the one before it leaves.
pub proof fn lemma_writing_goes_on(
    files: Map<Seq<char>, Seq<u8>>,
    op: WriteOp,
    path: Seq<char>,
    temp: Seq<char>,
    bytes: Seq<u8>,
)
    requires
        following(op) is Some,
    ensures
        before_write(files, following(op)->0, path, temp, bytes) == after_write(
            before_write(files, op, path, temp, bytes),
            op,
            path,
            temp,
            bytes,
        ),
{
}

/// A file is written at once: until the file beside it takes the path, the path
/// holds what it held, and from there on it holds all the bytes; no other path
/// changes.
pub proof fn lemma_writing_is_atomic(
    files: Map<Seq<char>, Seq<u8>>,
    op: WriteOp,
    path: Seq<char>,
    temp: Seq<char>,
    bytes: Seq<u8>,
    other: Seq<char>,
)
    requires
        temp != path,
        other != path,
        other != temp,
    ensures
        ({
            let now = before_write(files, op, path, temp, bytes);
            let replaced = op is ProtectTarget || op is SyncParent;
            &&& content(now, path) == (if replaced {
                Some(bytes)
            } else {
                content(files, path)
            })
            &&& replaced ==> content(now, temp) is None
            &&& content(now, other) == content(files, other)
        }),
{
}

/// A file holds credentials of a subscription exactly if it is an ordinary file of
/// a sane size that could be read as JSON, that says it is of a subscription and
/// whose owner can be told; its bytes are then taken as they are.
pub proof fn lemma_credentials_are_read(path: Seq<char>, read: ReadModel)
    ensures
        raw_auth(path, read) is Ok <==> read.kind is File && read.size <= 1_048_576
            && read.content is Ok,
        raw_auth(path, read) matches Ok(bytes) ==> read.content == Ok::<Seq<u8>, Seq<char>>(bytes),
        chatgpt_document(path, read) is Ok <==> (raw_auth(path, read) matches Ok(bytes) && (
        json_in_bytes(bytes) matches Ok(value) && value.text_field("auth_mode"@) == Some(
            "chatgpt"@,
        ) && identity_of(value) is Some)),
        chatgpt_document(path, read) matches Ok(document) ==> {
            &&& raw_auth(path, read) == Ok::<Seq<u8>, ErrorModel>(document.0)
            &&& identity_of(json_in_bytes(document.0)->Ok_0) == Some(document.1)
            &&& owner_in(document.0) == Some(document.1)
        },
{
}

/// A home tells an owner exactly if it is a directory and its credential file
/// holds credentials of a subscription.
pub proof fn lemma_home_owner(
    style: PathStyle,
    state_dir: Seq<char>,
    directory: KindModel,
    auth: ReadModel,
    owner: CredentialModel,
)
    ensures
        home_owner(style, state_dir, directory, auth) == Some(owner) <==> directory is Directory && (
        chatgpt_document(below(style, state_dir, "auth.json"@), auth) matches Ok(document)
            && document.1 == owner),
        directory_fault(directory, state_dir, Seq::empty()) is None <==> directory is Directory,
{
}

/// The credentials in a home are an owner's by the identifier where the owner has
/// one, whatever the addresses say, and else by the address, in any case.
pub proof fn lemma_home_of(found: Option<CredentialModel>, owner: CredentialModel)
    ensures
        found is None ==> !is_home_of(found, owner),
        found matches Some(f) ==> owner.account_id is Some ==> (is_home_of(found, owner)
            <==> f.account_id == owner.account_id),
        found matches Some(f) ==> owner.account_id is None ==> (is_home_of(found, owner) <==> (
        f.email matches Some(a) && owner.email matches Some(b) && reads_alike(a, b))),
{
    if let Some(f) = found {
        if f.email is Some && owner.email is Some {
            lemma_reads_alike(f.email->0, owner.email->0);
        }
    }
}

/// Where credentials stand in one home only, its account is their owner, and where
/// they stand in none they belong to no managed account.
pub proof fn lemma_single_home_tells_the_owner(
    style: PathStyle,
    owner: CredentialModel,
    accounts: Seq<AccountRecord>,
    evidence: Seq<HomeEvidence>,
    i: int,
)
    requires
        forall|j: int|
            0 <= j < accounts.len() && j != i ==> !#[trigger] holds_credentials(
                style,
                owner,
                accounts,
                evidence,
                j,
            ),
    ensures
        0 <= i < accounts.len() && holds_credentials(style, owner, accounts, evidence, i)
            ==> managed_owner(style, owner, accounts, evidence) == CredentialOwner::Managed(
            accounts[i].id,
        ),
        !(0 <= i < accounts.len() && holds_credentials(style, owner, accounts, evidence, i))
            ==> managed_owner(style, owner, accounts, evidence) == CredentialOwner::Unmanaged,
{
    lemma_single_home(style, owner, accounts, evidence, i);
}

/// Whether the credentials of an owner stand in the home of an account of a list.
pub open spec fn holds_credentials(
    style: PathStyle,
    owner: CredentialModel,
    accounts: Seq<AccountRecord>,
    evidence: Seq<HomeEvidence>,
    i: int,
) -> bool {
    is_home_of(
        home_owner(style, accounts[i].state_dir@, evidence[i].directory@, evidence[i].auth@),
        owner,
    )
}

proof fn lemma_single_home(
    style: PathStyle,
    owner: CredentialModel,
    accounts: Seq<AccountRecord>,
    evidence: Seq<HomeEvidence>,
    i: int,
)
    requires
        forall|j: int|
            0 <= j < accounts.len() && j != i ==> !#[trigger] holds_credentials(
                style,
                owner,
                accounts,
                evidence,
                j,
            ),
    ensures
        homes_of(style, owner, accounts, evidence) == (if 0 <= i < accounts.len()
            && holds_credentials(style, owner, accounts, evidence, i) {
            seq![accounts[i].id]
        } else {
            Seq::empty()
        }),
    decreases accounts.len(),
{
    if accounts.len() > 0 {
        let front = accounts.drop_last();
        let n = accounts.len() - 1;
        assert forall|j: int| 0 <= j < front.len() && j != i implies !#[trigger] holds_credentials(
            style,
            owner,
            front,
            evidence,
            j,
        ) by {
            assert(!holds_credentials(style, owner, accounts, evidence, j));
        }
        lemma_single_home(style, owner, front, evidence, i);
        if n != i {
            assert(!holds_credentials(style, owner, accounts, evidence, n));
        } else {
            assert(homes_of(style, owner, front, evidence) =~= Seq::empty());
        }
        if 0 <= i < n {
            assert(front[i] == accounts[i]);
            assert(holds_credentials(style, owner, front, evidence, i) == holds_credentials(
                style,
                owner,
                accounts,
                evidence,
                i,
            ));
        }
        if n == i && holds_credentials(style, owner, accounts, evidence, n) {
            assert(homes_of(style, owner, accounts, evidence) =~= seq![accounts[n].id]);
        }
    }
}

/// The desktop application has no owner where it has no credentials, an unmanaged
/// one where its credentials tell none, and else the managed account that the
/// owner is.
pub proof fn lemma_current_owner(
    style: PathStyle,
    bytes: Seq<u8>,
    accounts: Seq<AccountRecord>,
    evidence: Seq<HomeEvidence>,
)
    ensures
        current_owner(style, None, accounts, evidence) == CredentialOwner::Missing,
        owner_in(bytes) is None ==> current_owner(style, Some(bytes), accounts, evidence)
            == CredentialOwner::Unmanaged,
        owner_in(bytes) matches Some(owner) ==> current_owner(style, Some(bytes), accounts, evidence)
            == managed_owner(style, owner, accounts, evidence),
        owner_in(bytes) is Some <==> (json_in_bytes(bytes) matches Ok(value) && value.text_field(
            "auth_mode"@,
        ) == Some("chatgpt"@) && identity_of(value) is Some),
{
}

/// The credentials that the desktop application has are the bytes of its
/// credential file; where there is no such file it has none, and one that cannot
/// be accepted is an error.
pub proof fn lemma_current_bytes(
    style: PathStyle,
    global_home: Seq<char>,
    auth: Option<AuthRead>,
)
    ensures
        auth is None ==> current_bytes(style, global_home, auth) == Ok::<
            Option<Seq<u8>>,
            ErrorModel,
        >(None),
        auth matches Some(read) ==> match raw_auth(
            below(style, global_home, "auth.json"@),
            read@,
        ) {
            Ok(bytes) => current_bytes(style, global_home, auth) == Ok::<
                Option<Seq<u8>>,
                ErrorModel,
            >(Some(bytes)),
            Err(fault) => current_bytes(style, global_home, auth) == Err::<
                Option<Seq<u8>>,
                ErrorModel,
            >(fault),
        },
{
}

/// Whether a text is what is left of another without white space at its ends.
pub open spec fn is_core(core: Seq<char>, s: Seq<char>) -> bool {
    &&& core.len() > 0
    &&& !is_space(core[0])
    &&& !is_space(core.last())
    &&& exists|front: Seq<char>, rear: Seq<char>|
        #![trigger front + core + rear]
        is_blank(front) && is_blank(rear) && s == front + core + rear
}

/// A blank text is no text; of any other the white space at its ends is left out.
pub proof fn lemma_nonblank(core: Seq<char>, s: Seq<char>)
    ensures
        is_core(core, s) ==> nonblank(Some(s)) == Some(core),
        nonblank(Some(s)) is None <==> is_blank(s),
        nonblank(None) is None,
{
    crate::text::lemma_trimming(s);
    if is_core(core, s) {
        let (front, rear) = choose|front: Seq<char>, rear: Seq<char>|
            #![trigger front + core + rear]
            is_blank(front) && is_blank(rear) && s == front + core + rear;
        lemma_trimmed(front, core, rear);
    }
}

/// The identifier of credentials is the one beside their tokens, else the one in
/// the claims of their token, in the order of three places; an address is taken
/// only from claims that call it verified. Without either nobody owns them.
pub proof fn lemma_identity(value: JsonModel, claims: Option<JsonModel>, tokens: JsonModel)
    requires
        value.field("tokens"@) == Some(tokens),
    ensures
        ({
            let inner = tokens.text_field("account_id"@);
            let outer = value.text_field("account_id"@);
            let own = if tokens.field("account_id"@) is Some {
                inner
            } else {
                outer
            };
            let identity = identity_with(value, claims);
            &&& nonblank(own) matches Some(id) ==> (identity matches Some(found)
                && found.account_id == Some(id))
            &&& claims is None && nonblank(own) is None ==> identity is None
            &&& claims matches Some(c) ==> nonblank(own) is None ==> {
                let first = c.text_field("account_id"@);
                let second = c.text_field("chatgpt_account_id"@);
                let third = match c.field("https://api.openai.com/auth"@) {
                    Some(auth) => auth.text_field("chatgpt_account_id"@),
                    None => None,
                };
                let claimed = if first is Some {
                    nonblank(first)
                } else if second is Some {
                    nonblank(second)
                } else {
                    nonblank(third)
                };
                match identity {
                    Some(found) => found.account_id == claimed,
                    None => claimed is None,
                }
            }
            &&& identity matches Some(found) ==> found.account_id is Some || found.email is Some
            &&& claims matches Some(c) ==> c.flag_field("email_verified"@) == Some(true) ==> (
            nonblank(c.text_field("email"@)) matches Some(email) ==> (identity matches Some(found)
                && found.email == Some(email)))
            &&& identity matches Some(found) ==> (found.email matches Some(email) ==> (
            claims matches Some(c) && c.flag_field("email_verified"@) == Some(true) && nonblank(
                c.text_field("email"@),
            ) == Some(email)))
        }),
        identity_of(value) == identity_with(
            value,
            match tokens.text_field("id_token"@) {
                Some(token) => claims_in(token),
                None => None,
            },
        ),
{
}

/// Without tokens nobody owns credentials.
pub proof fn lemma_no_tokens_no_identity(value: JsonModel, claims: Option<JsonModel>)
    requires
        value.field("tokens"@) is None,
    ensures
        identity_with(value, claims) is None,
        identity_of(value) is None,
{
}

/// The claims of a token are the JSON in its second part, which ends at the next
/// point where there is one; a token of one part has none.
pub proof fn lemma_claims_stand_in_the_second_part(head: Seq<char>, body: Seq<char>, rest: Seq<char>)
    requires
        !head.contains('.'),
        !body.contains('.'),
    ensures
        claims_in(head) is None,
        ({
            let stated = match decoded_base64(body) {
                Some(bytes) => match json_in_bytes(bytes) {
                    Ok(value) => Some(value),
                    Err(_) => None,
                },
                None => None,
            };
            &&& claims_in(head.push('.') + body) == stated
            &&& claims_in(head.push('.') + (body.push('.') + rest)) == stated
        }),
{
    let dot = Separator::Only('.');
    assert forall|i: int| 0 <= i < head.len() implies !dot.cuts(#[trigger] head[i]) by {
        assert(head.contains(head[i]));
    }
    assert forall|i: int| 0 <= i < body.len() implies !dot.cuts(#[trigger] body[i]) by {
        assert(body.contains(body[i]));
    }
    lemma_split_whole(head, dot);
    lemma_split_whole(body, dot);
    lemma_split_apart(head, body, '.', dot);
    lemma_split_apart(body, rest, '.', dot);
    lemma_split_apart(head, body.push('.') + rest, '.', dot);
    assert((seq![head] + seq![body])[1] == body);
    assert((seq![head] + (seq![body] + split(rest, dot)))[1] == body);
}

/// A configuration asks for the system's store exactly if one of its lines does,
/// wherever that line stands.
pub proof fn lemma_keyring_is_noticed_in_any_line(a: Seq<char>, b: Seq<char>, line: Seq<char>)
    requires
        !line.contains('\n'),
    ensures
        uses_keyring(a.push('\n') + b) <==> uses_keyring(a) || uses_keyring(b),
        uses_keyring(line) <==> asks_for_keyring(line),
{
    let cut = Separator::Only('\n');
    let x = split(a, cut);
    let y = split(b, cut);
    let all = split(a.push('\n') + b, cut);
    lemma_split_apart(a, b, '\n', cut);
    if uses_keyring(a) {
        let i = choose|i: int| 0 <= i < x.len() && asks_for_keyring(#[trigger] x[i]);
        assert(all[i] == x[i]);
    }
    if uses_keyring(b) {
        let i = choose|i: int| 0 <= i < y.len() && asks_for_keyring(#[trigger] y[i]);
        assert(all[x.len() + i] == y[i]);
    }
    if uses_keyring(a.push('\n') + b) {
        let i = choose|i: int| 0 <= i < all.len() && asks_for_keyring(#[trigger] all[i]);
        if i < x.len() {
            assert(x[i] == all[i]);
        } else {
            assert(y[i - x.len()] == all[i]);
        }
    }
    assert forall|i: int| 0 <= i < line.len() implies !cut.cuts(#[trigger] line[i]) by {
        assert(line.contains(line[i]));
    }
    lemma_split_whole(line, cut);
    if asks_for_keyring(line) {
        assert(split(line, cut)[0] == line);
    }
}

/// A line asks for the system's store if it begins with the key, behind any white
/// space, and names one of the four stores after it, all in any case. A line that
/// begins with anything else does not.
pub proof fn lemma_line_asks_for_keyring(
    pad: Seq<char>,
    key: Seq<char>,
    between: Seq<char>,
    store: Seq<char>,
    after: Seq<char>,
)
    requires
        is_blank(pad),
        reads_alike(key, "cli_auth_credentials_store"@),
        reads_alike(store, "keyring"@) || reads_alike(store, "keychain"@)
            || reads_alike(store, "wincred"@) || reads_alike(store, "credential_manager"@),
        after.len() > 0,
        !is_space(after.last()),
    ensures
        asks_for_keyring(pad + key + between + store + after),
{
    reveal_strlit("cli_auth_credentials_store");
    lemma_reads_alike(key, "cli_auth_credentials_store"@);
    lemma_reads_alike(store, "keyring"@);
    lemma_reads_alike(store, "keychain"@);
    lemma_reads_alike(store, "wincred"@);
    lemma_reads_alike(store, "credential_manager"@);
    lemma_stores_are_small();
    let core = key + between + store + after;
    let line = pad + key + between + store + after;
    assert(line =~= pad + core + Seq::<char>::empty());
    assert(core[0] == key[0]);
    assert(lowered(key)[0] == 'c');
    assert(!is_space(core[0]));
    assert(core.last() == after.last());
    lemma_trimmed(pad, core, Seq::empty());
    let lower = lowered(core);
    let n = key.len() as int;
    let at = n + between.len();
    assert(lower.subrange(0, n) =~= lowered(key));
    assert(stands_at(lower, lowered(key), 0));
    assert(lower.subrange(at, at + store.len()) =~= lowered(store));
    assert(stands_at(lower, lowered(store), at));
}

proof fn lemma_stores_are_small()
    ensures
        lowered("cli_auth_credentials_store"@) == "cli_auth_credentials_store"@,
        lowered("keyring"@) == "keyring"@,
        lowered("keychain"@) == "keychain"@,
        lowered("wincred"@) == "wincred"@,
        lowered("credential_manager"@) == "credential_manager"@,
{
    reveal_strlit("cli_auth_credentials_store");
    reveal_strlit("keyring");
    reveal_strlit("keychain");
    reveal_strlit("wincred");
    reveal_strlit("credential_manager");
    assert(lowered("cli_auth_credentials_store"@) =~= "cli_auth_credentials_store"@);
    assert(lowered("keyring"@) =~= "keyring"@);
    assert(lowered("keychain"@) =~= "keychain"@);
    assert(lowered("wincred"@) =~= "wincred"@);
    assert(lowered("credential_manager"@) =~= "credential_manager"@);
}

/// A configuration rules a switch out exactly if it could be read within the limit
/// of its size and asks for the system's store. A line that does not begin with
/// the key never asks.
pub proof fn lemma_unsupported_storage(size: u64, text: String, line: Seq<char>)
    ensures
        !storage_is_unsupported(None),
        storage_is_unsupported(Some((size, text))) <==> size <= 1_048_576 && uses_keyring(text@),
        asks_for_keyring(line) ==> begins(lowered(trimmed(line)), "cli_auth_credentials_store"@),
{
}

/// The home of the desktop application is accepted exactly if it is an absolute
/// path and not the home of any account, enabled or not.
pub proof fn lemma_accepted_home(
    style: PathStyle,
    global_home: Seq<char>,
    accounts: Seq<AccountRecord>,
    i: int,
)
    ensures
        home_fault(style, global_home, accounts) is None ==> is_absolute_path(style, global_home),
        home_fault(style, global_home, accounts) is None && 0 <= i < accounts.len() ==> !same_place(
            style,
            accounts[i].state_dir@,
            global_home,
        ),
        is_absolute_path(style, global_home) && (forall|j: int|
            0 <= j < accounts.len() ==> !same_place(
                style,
                (#[trigger] accounts[j]).state_dir@,
                global_home,
            )) ==> home_fault(style, global_home, accounts) is None,
{
}

/// The home that credentials go back to is that of the first account with the
/// identifier of their owner; they have none where no account has it.
pub proof fn lemma_owner_home(
    owner: CredentialOwner,
    accounts: Seq<AccountRecord>,
    current: Option<Seq<u8>>,
    i: int,
)
    ensures
        owner matches CredentialOwner::Managed(id) ==> 0 <= i < accounts.len() && accounts[i].id == id
            && (forall|j: int| 0 <= j < i ==> (#[trigger] accounts[j]).id != id) ==> owner_home(
            owner,
            accounts,
        ) == Some((id, accounts[i].state_dir@)),
        !(owner is Managed) ==> owner_home(owner, accounts) is None && !owner_is_gone(
            current,
            owner,
            accounts,
        ),
        owner matches CredentialOwner::Managed(id) ==> (owner_is_gone(current, owner, accounts)
            <==> current is Some && (forall|j: int|
            0 <= j < accounts.len() ==> (#[trigger] accounts[j]).id != id)),
{
    if let CredentialOwner::Managed(id) = owner {
        crate::account::lemma_place_of(accounts, id);
    }
}

/// Nothing is written before its directory is there: the recovery directory is
/// made before the copy, and a managed home is seen to be a directory before
/// anything is copied from it or written into it. Without credentials to save
/// there is nothing to do but the replacement.
pub proof fn lemma_directories_come_first(
    style: PathStyle,
    global: Seq<char>,
    target: Seq<u8>,
    bytes: Seq<u8>,
    owner: CredentialOwner,
    accounts: Seq<AccountRecord>,
    recovery_root: Seq<char>,
    recovery_dir: Seq<char>,
)
    ensures
        replacement_steps(
            style,
            global,
            target,
            None,
            owner,
            accounts,
            recovery_root,
            recovery_dir,
        ) == seq![FileStepModel::Replace(global, target)],
        ({
            let steps = replacement_steps(
                style,
                global,
                target,
                Some(bytes),
                owner,
                accounts,
                recovery_root,
                recovery_dir,
            );
            &&& steps[0] == FileStepModel::PrepareDirectory(recovery_root)
            &&& steps[1] == FileStepModel::CreateDirectory(recovery_dir)
            &&& steps[2] == FileStepModel::Replace(
                below(style, recovery_dir, "auth.json"@),
                bytes,
            )
            &&& steps.last() == FileStepModel::Replace(global, target)
            &&& owner_home(owner, accounts) is None ==> steps.len() == 4
            &&& owner_home(owner, accounts) matches Some((id, state_dir)) ==> steps.len() == 7 && (
            steps[3] matches FileStepModel::RequireDirectory(dir, _) && dir == state_dir)
                && steps[4] == FileStepModel::CopyIfPresent(
                below(style, state_dir, "auth.json"@),
                below(style, recovery_dir, saved_name(id)),
            ) && steps[5] == FileStepModel::Replace(below(style, state_dir, "auth.json"@), bytes)
        }),
{
}

/// The files that writes and copies make are told apart by their identifiers, and
/// neither has the name of a credential file.
pub proof fn lemma_names_of_copies(a: u128, b: u128)
    ensures
        saved_name(a) == saved_name(b) <==> a == b,
        temp_name(a) == temp_name(b) <==> a == b,
        temp_name(a) != "auth.json"@,
        saved_name(a) != "auth.json"@,
        temp_name(a)[0] == '.',
{
    reveal_strlit("managed-");
    reveal_strlit("-previous.json");
    reveal_strlit(".auth-switch-");
    reveal_strlit(".tmp");
    reveal_strlit("auth.json");
    lemma_ids_are_written_apart(a, b);
    if saved_name(a) == saved_name(b) {
        assert(saved_name(a).subrange(8, 44) =~= id_words(a));
        assert(saved_name(b).subrange(8, 44) =~= id_words(b));
    }
    if temp_name(a) == temp_name(b) {
        assert(temp_name(a).subrange(13, 49) =~= id_words(a));
        assert(temp_name(b).subrange(13, 49) =~= id_words(b));
    }
    assert(temp_name(a).len() == 53);
    assert(saved_name(a).len() == 58);
}

/// A file is kept for the user alone before it gets its bytes, and takes the path
/// only after they are safely stored; then the path is kept for the user alone and
/// its name is stored too.
pub proof fn lemma_order_of_writing()
    ensures
        following(WriteOp::CreateTemp) == Some(WriteOp::ProtectTemp),
        following(WriteOp::ProtectTemp) == Some(WriteOp::FillTemp),
        following(WriteOp::FillTemp) == Some(WriteOp::SyncTemp),
        following(WriteOp::SyncTemp) == Some(WriteOp::Rename),
        following(WriteOp::Rename) == Some(WriteOp::ProtectTarget),
        following(WriteOp::ProtectTarget) == Some(WriteOp::SyncParent),
        following(WriteOp::SyncParent) is None,
{
}

} // verus!
