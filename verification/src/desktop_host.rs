//! The desktop application that works with the credentials: how it is told from
//! others, how it is ended before a switch and started again after it.

use vstd::prelude::*;

use crate::error::{AppError, ErrorModel};
use crate::json::{json_in_bytes, read_bytes, Json, JsonModel};
use crate::paths::{
    bundle_of, enclosing_app_bundle, has_file_name, lies_in, name_in, parent, parent_of,
    path_lies_in, same_path, same_place, PathStyle,
};
use crate::text::{
    char_is_space, contains_text, digits, digits_text, from_chars, holds, is_blank, is_digit,
    is_space, lemma_digits_read_back, lemma_last_piece, lemma_lower_char, lemma_split_apart,
    lemma_split_whole, lemma_trimmed, lower_text, lowered, or_empty, parse_u32, parsed_u32,
    replace_char, replaced, same_text, split, split_text, stands_at, text_of, texts, to_chars,
    trim_text, trimmed, Separator,
};

verus! {

/// How long the application gets to end after it was asked to.
pub const GRACEFUL_TIMEOUT_MILLIS: u64 = 6_000;

/// How long the application gets to end after it was told to.
pub const TERM_TIMEOUT_MILLIS: u64 = 2_000;

/// How long to wait between two looks at the processes.
pub const POLL_MILLIS: u64 = 150;

/// A running program.
#[derive(Debug, PartialEq, Eq)]
pub struct ProcessInfo {
    pub pid: u32,
    pub parent_pid: u32,
    pub name: String,
    pub executable: String,
    pub command_line: String,
}

/// What a running program says.
pub struct ProcessModel {
    pub pid: u32,
    pub parent_pid: u32,
    pub name: Seq<char>,
    pub executable: Seq<char>,
    pub command_line: Seq<char>,
}

impl ProcessInfo {
    /// What the program says.
    pub open spec fn view(self) -> ProcessModel {
        ProcessModel {
            pid: self.pid,
            parent_pid: self.parent_pid,
            name: self.name@,
            executable: self.executable@,
            command_line: self.command_line@,
        }
    }
}

/// What every running program of a list says.
pub open spec fn process_models(list: Seq<ProcessInfo>) -> Seq<ProcessModel> {
    Seq::new(list.len(), |i: int| list[i]@)
}

/// What an application bundle is.
#[derive(Debug, Clone, Copy, PartialEq, Eq, Structural)]
pub enum BundleKind {
    Codex,
    OrdinaryChat,
    EmbeddedCodexOnly,
    Other,
}

/// The systems on which the application can be ended and started.
#[derive(Debug, Clone, Copy, PartialEq, Eq, Structural)]
pub enum HostPlatform {
    Mac,
    Windows,
    Unsupported,
}

/// A look at the running programs: for each, what the bundle is that it stands
/// in, and whether a program of the service stands beside it.
#[derive(Debug, PartialEq, Eq)]
pub struct Sighting {
    pub processes: Vec<ProcessInfo>,
    pub kinds: Vec<BundleKind>,
    pub embedded: Vec<bool>,
}

impl Sighting {
    /// Whether something is told of every program.
    pub open spec fn well_formed(self) -> bool {
        self.kinds@.len() == self.processes@.len() && self.embedded@.len() == self.processes@.len()
    }
}

/// What starts the application again.
#[derive(Debug, PartialEq, Eq)]
pub enum LaunchTarget {
    MacBundle(String),
    WindowsExecutable(String),
    WindowsAumid(String),
}

/// How the application was ended.
#[derive(Debug, PartialEq, Eq)]
pub struct HostShutdown {
    pub was_running: bool,
    pub launch_target: Option<LaunchTarget>,
}

/// Whether an identifier is that of the desktop application.
pub fn is_macos_codex_bundle_id(bundle_id: &str) -> (r: bool)
    ensures
        r == (bundle_id@ == "com.openai.codex"@),
{
    same_text(bundle_id, "com.openai.codex")
}

/// What a bundle with this identifier is.
pub open spec fn bundle_kind(bundle_id: Option<Seq<char>>, embedded: bool) -> BundleKind {
    if bundle_id == Some("com.openai.chat"@) {
        BundleKind::OrdinaryChat
    } else if bundle_id == Some("com.openai.codex"@) {
        BundleKind::Codex
    } else if embedded {
        BundleKind::EmbeddedCodexOnly
    } else {
        BundleKind::Other
    }
}

/// Tells what a bundle is, by its identifier and by whether it holds a program
/// of the service.
pub fn classify_bundle(bundle_id: &Option<String>, embedded: bool) -> (r: BundleKind)
    ensures
        r == bundle_kind(text_of(*bundle_id), embedded),
{
    if let Some(id) = bundle_id {
        if same_text(id.as_str(), "com.openai.chat") {
            return BundleKind::OrdinaryChat;
        }
        if is_macos_codex_bundle_id(id.as_str()) {
            return BundleKind::Codex;
        }
    }
    if embedded {
        BundleKind::EmbeddedCodexOnly
    } else {
        BundleKind::Other
    }
}

/// Only the one identifier makes a bundle the desktop application, whatever it holds.
pub proof fn lemma_only_the_identifier_makes_a_host(bundle_id: Option<Seq<char>>, embedded: bool)
    ensures
        bundle_kind(bundle_id, embedded) == BundleKind::Codex <==> bundle_id == Some(
            "com.openai.codex"@,
        ),
{
    reveal_strlit("com.openai.chat");
    reveal_strlit("com.openai.codex");
    assert("com.openai.chat"@.len() != "com.openai.codex"@.len());
}

/// A path in lower case with all its separators alike.
pub open spec fn even_path(path: Seq<char>) -> Seq<char> {
    lowered(replaced(path, '\\', '/'))
}

/// Whether a program is the desktop application, by its path and by whether a
/// program of the service stands beside it.
pub open spec fn is_windows_host(path: Seq<char>, embedded: bool) -> bool {
    let even = even_path(path);
    let name = split(even, Separator::Only('/')).last();
    &&& name == "chatgpt.exe"@ || name == "codex.exe"@
    &&& !(holds(even, "openai.chat"@) && !holds(even, "openai.codex"@) && !embedded)
    &&& holds(even, "/windowsapps/openai.codex"@) || holds(even, "/openai/codex/"@) || embedded
}

fn even_text(path: &str) -> (r: String)
    ensures
        r@ == even_path(path@),
{
    lower_text(replace_char(path, '\\', '/').as_str())
}

/// Tells whether a program is the desktop application, by its path and by
/// whether a program of the service stands beside it.
pub fn is_windows_codex_host_path(path: &str, embedded_codex_exists: bool) -> (r: bool)
    ensures
        r == is_windows_host(path@, embedded_codex_exists),
{
    let even = even_text(path);
    let even = even.as_str();
    let parts = split_text(even, Separator::Only('/'));
    proof {
        crate::text::lemma_split_nonempty(even@, Separator::Only('/'));
        assert(texts(parts@).len() == parts@.len());
        assert(texts(parts@).last() == parts@[parts@.len() - 1]@);
    }
    let name = parts[parts.len() - 1].as_str();
    if !(same_text(name, "chatgpt.exe") || same_text(name, "codex.exe")) {
        return false;
    }
    if contains_text(even, "openai.chat") && !contains_text(even, "openai.codex")
        && !embedded_codex_exists {
        return false;
    }
    contains_text(even, "/windowsapps/openai.codex") || contains_text(even, "/openai/codex/")
        || embedded_codex_exists
}

/// A name alone never makes a program the desktop application: its path or a
/// program of the service beside it has to bear it out.
pub proof fn lemma_name_is_no_evidence(path: Seq<char>)
    requires
        !holds(even_path(path), "/windowsapps/openai.codex"@),
        !holds(even_path(path), "/openai/codex/"@),
    ensures
        !is_windows_host(path, false),
{
}

/// Whether a text says a word written in lower case with slashes, whatever the
/// case of its letters and the kind of its separators.
pub open spec fn reads(s: Seq<char>, word: Seq<char>) -> bool {
    s.len() == word.len() && forall|i: int|
        0 <= i < word.len() ==> (#[trigger] s[i] == word[i] || (word[i] == '/' && s[i] == '\\') || (
        'a' <= word[i] <= 'z' && s[i] as int + 32 == word[i] as int))
}

/// Whether a word stands somewhere in a path.
pub open spec fn reads_somewhere(path: Seq<char>, word: Seq<char>) -> bool {
    exists|at: int|
        0 <= at && at + word.len() <= path.len() && reads(
            #[trigger] path.subrange(at, at + word.len()),
            word,
        )
}

/// Whether the last part of a path is a name.
pub open spec fn names_file(path: Seq<char>, name: Seq<char>) -> bool {
    let at = path.len() - name.len();
    &&& at >= 0
    &&& reads(path.skip(at), name)
    &&& at > 0 ==> path[at - 1] == '/' || path[at - 1] == '\\'
}

/// Whether a word is in lower case and has no backslash.
pub open spec fn is_even(word: Seq<char>) -> bool {
    forall|i: int| 0 <= i < word.len() ==> (#[trigger] word[i]) != '\\' && !('A' <= word[i] <= 'Z')
}

proof fn lemma_reads(s: Seq<char>, word: Seq<char>)
    requires
        is_even(word),
    ensures
        reads(s, word) <==> even_path(s) == word,
{
    let even = even_path(s);
    if reads(s, word) {
        assert forall|i: int| 0 <= i < word.len() implies even[i] == word[i] by {
            assert(s[i] == word[i] || (word[i] == '/' && s[i] == '\\') || ('a' <= word[i] <= 'z'
                && s[i] as int + 32 == word[i] as int));
            lemma_lower_char(replaced(s, '\\', '/')[i]);
            lemma_lower_char(word[i]);
        }
        assert(even =~= word);
    }
    if even == word {
        assert forall|i: int| 0 <= i < word.len() implies (#[trigger] s[i] == word[i] || (word[i]
            == '/' && s[i] == '\\') || ('a' <= word[i] <= 'z' && s[i] as int + 32
            == word[i] as int)) by {
            assert(even[i] == word[i]);
            lemma_lower_char(replaced(s, '\\', '/')[i]);
        }
    }
}

proof fn lemma_reads_somewhere(path: Seq<char>, word: Seq<char>)
    requires
        is_even(word),
    ensures
        reads_somewhere(path, word) <==> holds(even_path(path), word),
{
    let even = even_path(path);
    let n = word.len();
    if reads_somewhere(path, word) {
        let at = choose|at: int|
            0 <= at && at + n <= path.len() && reads(#[trigger] path.subrange(at, at + n), word);
        lemma_reads(path.subrange(at, at + n), word);
        assert(even.subrange(at, at + n) =~= even_path(path.subrange(at, at + n)));
        assert(stands_at(even, word, at));
    }
    if holds(even, word) {
        let at = choose|at: int| stands_at(even, word, at);
        assert(even.subrange(at, at + n) =~= even_path(path.subrange(at, at + n)));
        lemma_reads(path.subrange(at, at + n), word);
    }
}

proof fn lemma_names_file(path: Seq<char>, name: Seq<char>)
    requires
        is_even(name),
        !name.contains('/'),
    ensures
        names_file(path, name) <==> split(even_path(path), Separator::Only('/')).last() == name,
{
    let sep = Separator::Only('/');
    let even = even_path(path);
    let at = path.len() - name.len();
    lemma_last_piece(even, sep);
    if names_file(path, name) {
        lemma_reads(path.skip(at), name);
        assert(even.skip(at) =~= even_path(path.skip(at)));
        assert forall|i: int| 0 <= i < name.len() implies !sep.cuts(#[trigger] name[i]) by {
            assert(name.contains(name[i]));
        }
        lemma_split_whole(name, sep);
        if at > 0 {
            lemma_lower_char('/');
            assert(even[at - 1] == '/');
            assert(even =~= even.take(at - 1).push('/') + name);
            lemma_split_apart(even.take(at - 1), name, '/', sep);
        } else {
            assert(even =~= name);
        }
    }
    if split(even, sep).last() == name {
        assert(even.skip(at) =~= even_path(path.skip(at)));
        lemma_reads(path.skip(at), name);
        if at > 0 {
            assert(even[at - 1] == '/');
            lemma_lower_char(replaced(path, '\\', '/')[at - 1]);
        }
    }
}

/// A program is the desktop application exactly if the last part of its path is
/// one of its two names, if its path or a program of the service beside it bears
/// that out, and if it is not the ordinary chat. The case of letters and the kind
/// of separators make no difference.
pub proof fn lemma_windows_host_is_recognised(path: Seq<char>, embedded: bool)
    ensures
        is_windows_host(path, embedded) <==> {
            &&& names_file(path, "chatgpt.exe"@) || names_file(path, "codex.exe"@)
            &&& embedded || reads_somewhere(path, "/windowsapps/openai.codex"@) || reads_somewhere(
                path,
                "/openai/codex/"@,
            )
            &&& embedded || reads_somewhere(path, "openai.codex"@) || !reads_somewhere(
                path,
                "openai.chat"@,
            )
        },
{
    reveal_strlit("chatgpt.exe");
    reveal_strlit("codex.exe");
    reveal_strlit("/windowsapps/openai.codex");
    reveal_strlit("/openai/codex/");
    reveal_strlit("openai.codex");
    reveal_strlit("openai.chat");
    lemma_names_file(path, "chatgpt.exe"@);
    lemma_names_file(path, "codex.exe"@);
    lemma_reads_somewhere(path, "/windowsapps/openai.codex"@);
    lemma_reads_somewhere(path, "/openai/codex/"@);
    lemma_reads_somewhere(path, "openai.codex"@);
    lemma_reads_somewhere(path, "openai.chat"@);
}

/// Whether a program came with the system's packages.
pub open spec fn is_packaged(path: Seq<char>) -> bool {
    holds(even_path(path), "/windowsapps/"@)
}

/// Whether a program came with the system's packages.
pub fn is_msix_path(path: &str) -> (r: bool)
    ensures
        r == is_packaged(path@),
{
    contains_text(even_text(path).as_str(), "/windowsapps/")
}

/// The place of the first white space, or the length of the text.
pub open spec fn first_space(s: Seq<char>) -> int
    decreases s.len(),
{
    if s.len() == 0 || is_space(s[0]) {
        0
    } else {
        1 + first_space(s.drop_first())
    }
}

fn find_space(chars: &Vec<char>) -> (r: usize)
    ensures
        r <= chars@.len(),
        r == first_space(chars@),
{
    let mut i: usize = 0;
    assert(chars@.skip(0) =~= chars@);
    while i < chars.len() && !char_is_space(chars[i])
        invariant
            i <= chars@.len(),
            first_space(chars@) == i + first_space(chars@.skip(i as int)),
        decreases chars@.len() - i,
    {
        assert(chars@.skip(i as int)[0] == chars@[i as int]);
        assert(chars@.skip(i as int).drop_first() =~= chars@.skip(i + 1));
        i = i + 1;
    }
    proof {
        if i < chars@.len() {
            assert(chars@.skip(i as int)[0] == chars@[i as int]);
        }
    }
    i
}

/// The program that a line of the process list names: two numbers and a path,
/// with any white space around each.
pub open spec fn process_in(line: Seq<char>) -> Option<ProcessModel> {
    let s = trimmed(line);
    let one = first_space(s);
    let rest = trimmed(s.skip(one));
    let two = first_space(rest);
    let path = trimmed(rest.skip(two));
    if path.len() == 0 {
        None
    } else {
        match (parsed_u32(s.take(one)), parsed_u32(rest.take(two))) {
            (Some(pid), Some(parent_pid)) => Some(
                ProcessModel {
                    pid,
                    parent_pid,
                    name: Seq::empty(),
                    executable: path,
                    command_line: Seq::empty(),
                },
            ),
            _ => None,
        }
    }
}

/// The first word of a text without white space around it, and what follows it,
/// without white space around it either.
fn split_first(text: &str) -> (r: (String, String))
    ensures
        r.0@ == text@.take(first_space(text@)),
        r.1@ == trimmed(text@.skip(first_space(text@))),
{
    let chars = to_chars(text);
    let one: usize = find_space(&chars);
    let first = from_chars(&chars, 0, one);
    let rest = from_chars(&chars, one, chars.len());
    assert(first@ =~= text@.take(one as int));
    assert(rest@ =~= text@.skip(one as int));
    (first, trim_text(rest.as_str()))
}

fn parse_process(line: &str) -> (r: Option<ProcessInfo>)
    ensures
        match r {
            Some(p) => process_in(line@) == Some(p@),
            None => process_in(line@) is None,
        },
{
    let s = trim_text(line);
    let (first, rest) = split_first(s.as_str());
    let (second, path) = split_first(rest.as_str());
    if path.as_str().is_empty() {
        return None;
    }
    let pid: u32 = match parse_u32(first.as_str()) {
        Some(pid) => pid,
        None => {
            return None;
        },
    };
    let parent_pid: u32 = match parse_u32(second.as_str()) {
        Some(pid) => pid,
        None => {
            return None;
        },
    };
    Some(
        ProcessInfo {
            pid,
            parent_pid,
            name: String::new(),
            executable: path,
            command_line: String::new(),
        },
    )
}

/// A line of the process list is read however its columns are padded: two numbers
/// and a path with white space between them and around.
pub proof fn lemma_padded_line_is_read(
    front: Seq<char>,
    pid: u32,
    between: Seq<char>,
    parent_pid: u32,
    after: Seq<char>,
    path: Seq<char>,
    rear: Seq<char>,
)
    requires
        is_blank(front),
        is_blank(between),
        is_blank(after),
        is_blank(rear),
        between.len() > 0,
        after.len() > 0,
        path.len() > 0,
        !is_space(path[0]),
        !is_space(path.last()),
    ensures
        process_in(
            front + (digits(pid as nat) + between + digits(parent_pid as nat) + after + path) + rear,
        ) == Some(
            ProcessModel {
                pid,
                parent_pid,
                name: Seq::empty(),
                executable: path,
                command_line: Seq::empty(),
            },
        ),
{
    let one = digits(pid as nat);
    let two = digits(parent_pid as nat);
    lemma_digits_read_back(pid as nat);
    lemma_digits_read_back(parent_pid as nat);
    let line = one + between + two + after + path;
    assert(line.last() == path.last());
    assert(line[0] == one[0]);
    assert(is_digit(one[0]) && is_digit(two[0]));
    lemma_trimmed(front, line, rear);
    assert(line =~= one + (between + two + after + path));
    lemma_first_space(one, between + two + after + path);
    let rest = two + after + path;
    assert(line.skip(one.len() as int) =~= between + rest + Seq::<char>::empty());
    assert(rest.last() == path.last());
    assert(rest[0] == two[0]);
    lemma_trimmed(between, rest, Seq::empty());
    assert(rest =~= two + (after + path));
    lemma_first_space(two, after + path);
    assert(rest.skip(two.len() as int) =~= after + path + Seq::<char>::empty());
    lemma_trimmed(after, path, Seq::empty());
    assert(line.take(one.len() as int) =~= one);
    assert(rest.take(two.len() as int) =~= two);
}

/// The first white space after digits is where they end.
proof fn lemma_first_space(number: Seq<char>, rest: Seq<char>)
    requires
        forall|i: int| 0 <= i < number.len() ==> is_digit(#[trigger] number[i]),
        rest.len() > 0,
        is_space(rest[0]),
    ensures
        first_space(number + rest) == number.len(),
    decreases number.len(),
{
    let all = number + rest;
    if number.len() > 0 {
        assert(all[0] == number[0]);
        assert(all.drop_first() =~= number.drop_first() + rest);
        assert forall|i: int| 0 <= i < number.drop_first().len() implies is_digit(
            #[trigger] number.drop_first()[i],
        ) by {
            assert(is_digit(number[i + 1]));
        }
        lemma_first_space(number.drop_first(), rest);
    } else {
        assert(all =~= rest);
    }
}

/// The programs that the lines of a process list name.
pub open spec fn processes_in(lines: Seq<Seq<char>>) -> Seq<ProcessModel>
    decreases lines.len(),
{
    if lines.len() == 0 {
        Seq::empty()
    } else {
        crate::rate_limits::push_some(
            processes_in(lines.drop_last()),
            process_in(lines.last()),
        )
    }
}

/// Reads the process list of the system.
pub fn parse_process_list(output: &str) -> (r: Vec<ProcessInfo>)
    ensures
        process_models(r@) == processes_in(split(output@, Separator::Only('\n'))),
{
    let lines = split_text(output, Separator::Only('\n'));
    let ghost all = texts(lines@);
    let mut out: Vec<ProcessInfo> = Vec::new();
    let mut i: usize = 0;
    assert(all.take(0) =~= Seq::empty());
    assert(process_models(out@) =~= Seq::empty());
    while i < lines.len()
        invariant
            all == texts(lines@),
            i <= lines@.len(),
            process_models(out@) == processes_in(all.take(i as int)),
        decreases lines@.len() - i,
    {
        assert(all.take(i + 1).drop_last() =~= all.take(i as int));
        assert(all.take(i + 1).last() == lines@[i as int]@);
        let ghost before = process_models(out@);
        if let Some(process) = parse_process(lines[i].as_str()) {
            out.push(process);
            assert(process_models(out@) =~= before.push(process@));
        }
        i = i + 1;
    }
    assert(all.take(i as int) =~= all);
    out
}

/// A number that fits into 32 bits.
pub open spec fn small(n: Option<u64>) -> Option<u32> {
    match n {
        Some(n) if n <= u32::MAX => Some(n as u32),
        _ => None,
    }
}

/// The program that an entry of the system's list names.
pub open spec fn entry_process(entry: JsonModel) -> Option<ProcessModel> {
    match (
        small(entry.unsigned_field("ProcessId"@)),
        small(entry.unsigned_field("ParentProcessId"@)),
    ) {
        (Some(pid), Some(parent_pid)) => Some(
            ProcessModel {
                pid,
                parent_pid,
                name: or_empty(entry.text_field("Name"@)),
                executable: or_empty(entry.text_field("ExecutablePath"@)),
                command_line: or_empty(entry.text_field("CommandLine"@)),
            },
        ),
        _ => None,
    }
}

/// The programs that entries of the system's list name.
pub open spec fn entry_processes(entries: Seq<JsonModel>) -> Seq<ProcessModel>
    decreases entries.len(),
{
    if entries.len() == 0 {
        Seq::empty()
    } else {
        crate::rate_limits::push_some(
            entry_processes(entries.drop_last()),
            entry_process(entries.last()),
        )
    }
}

/// The entries of the system's list, which is no list where it has only one.
pub open spec fn entries_in(value: JsonModel) -> Seq<JsonModel> {
    match value {
        JsonModel::List(items) => items,
        other => seq![other],
    }
}

fn small_field(entry: &Json, key: &str) -> (r: Option<u32>)
    ensures
        r == small(entry@.unsigned_field(key@)),
{
    match entry.unsigned_field(key) {
        Some(n) => if n <= 4294967295 {
            Some(n as u32)
        } else {
            None
        },
        None => None,
    }
}

fn text_or_empty(entry: &Json, key: &str) -> (r: String)
    ensures
        r@ == or_empty(entry@.text_field(key@)),
{
    match entry.text_field(key) {
        Some(s) => s,
        None => String::new(),
    }
}

fn parse_entry(entry: &Json) -> (r: Option<ProcessInfo>)
    ensures
        match r {
            Some(p) => entry_process(entry@) == Some(p@),
            None => entry_process(entry@) is None,
        },
{
    match small_field(entry, "ProcessId") {
        Some(pid) => match small_field(entry, "ParentProcessId") {
            Some(parent_pid) => Some(
                ProcessInfo {
                    pid,
                    parent_pid,
                    name: text_or_empty(entry, "Name"),
                    executable: text_or_empty(entry, "ExecutablePath"),
                    command_line: text_or_empty(entry, "CommandLine"),
                },
            ),
            None => None,
        },
        None => None,
    }
}

/// Reads the programs out of the system's list.
pub fn parse_windows_processes(value: &Json) -> (r: Vec<ProcessInfo>)
    ensures
        process_models(r@) == entry_processes(entries_in(value@)),
{
    let mut out: Vec<ProcessInfo> = Vec::new();
    match value {
        Json::List(items) => {
            let ghost all = entries_in(value@);
            let mut i: usize = 0;
            assert(all.take(0) =~= Seq::empty());
            assert(process_models(out@) =~= Seq::empty());
            while i < items.len()
                invariant
                    *value == Json::List(*items),
                    all == entries_in(value@),
                    i <= items@.len(),
                    process_models(out@) == entry_processes(all.take(i as int)),
                decreases items@.len() - i,
            {
                assert(all.take(i + 1).drop_last() =~= all.take(i as int));
                assert(all[i as int] == items@[i as int]@);
                assert(all.take(i + 1).last() == items@[i as int]@);
                let ghost before = process_models(out@);
                if let Some(process) = parse_entry(&items[i]) {
                    out.push(process);
                    assert(process_models(out@) =~= before.push(process@));
                }
                i = i + 1;
            }
            assert(all.take(i as int) =~= all);
        },
        _ => {
            reveal_with_fuel(entry_processes, 2);
            assert(entries_in(value@) == seq![value@]);
            assert(seq![value@].drop_last() =~= Seq::empty());
            assert(process_models(out@) =~= Seq::empty());
            if let Some(process) = parse_entry(value) {
                out.push(process);
                assert(process_models(out@) =~= Seq::empty().push(process@));
            }
        },
    }
    out
}

/// Reads the programs out of the bytes of the system's list.
pub fn read_windows_processes(output: &Vec<u8>) -> (r: Result<Vec<ProcessInfo>, AppError>)
    ensures
        match json_in_bytes(output@) {
            Ok(value) => r matches Ok(list) && process_models(list@) == entry_processes(
                entries_in(value),
            ),
            Err(_) => r matches Err(e) && e@ == ErrorModel::DesktopSwitch(
                "Windows 进程列表格式无法解析"@,
            ),
        },
{
    match read_bytes(output.as_slice()) {
        Ok(value) => Ok(parse_windows_processes(&value)),
        Err(_) => Err(AppError::DesktopSwitch("Windows 进程列表格式无法解析".to_owned())),
    }
}

/// Whether a program was started by one of the roots, over at most `depth` others.
pub open spec fn descends(
    processes: Seq<ProcessInfo>,
    roots: Seq<u32>,
    pid: u32,
    depth: nat,
) -> bool
    decreases depth,
{
    exists|i: int|
        0 <= i < processes.len() && (#[trigger] processes[i]).pid == pid && (roots.contains(
            processes[i].parent_pid,
        ) || (depth > 0 && descends(
            processes,
            roots,
            processes[i].parent_pid,
            (depth - 1) as nat,
        )))
}

/// Whether a program was started by one of the roots, directly or over others.
pub open spec fn is_descendant(processes: Seq<ProcessInfo>, roots: Seq<u32>, pid: u32) -> bool {
    exists|depth: nat| descends(processes, roots, pid, depth)
}

/// Whether a list of numbers holds one.
pub fn has_pid(pids: &Vec<u32>, pid: u32) -> (r: bool)
    ensures
        r == pids@.contains(pid),
{
    let mut i: usize = 0;
    while i < pids.len()
        invariant
            i <= pids@.len(),
            forall|j: int| 0 <= j < i ==> pids@[j] != pid,
        decreases pids@.len() - i,
    {
        if pids[i] == pid {
            return true;
        }
        i = i + 1;
    }
    false
}

proof fn lemma_closed_holds_descendants(
    processes: Seq<ProcessInfo>,
    roots: Seq<u32>,
    found: Seq<u32>,
    pid: u32,
    depth: nat,
)
    requires
        forall|i: int|
            0 <= i < processes.len() && (roots.contains((#[trigger] processes[i]).parent_pid)
                || found.contains(processes[i].parent_pid)) ==> found.contains(processes[i].pid),
        descends(processes, roots, pid, depth),
    ensures
        found.contains(pid),
    decreases depth,
{
    let i = choose|i: int|
        0 <= i < processes.len() && (#[trigger] processes[i]).pid == pid && (roots.contains(
            processes[i].parent_pid,
        ) || (depth > 0 && descends(
            processes,
            roots,
            processes[i].parent_pid,
            (depth - 1) as nat,
        )));
    if !roots.contains(processes[i].parent_pid) {
        lemma_closed_holds_descendants(
            processes,
            roots,
            found,
            processes[i].parent_pid,
            (depth - 1) as nat,
        );
    }
}

proof fn lemma_child_descends(
    processes: Seq<ProcessInfo>,
    roots: Seq<u32>,
    i: int,
)
    requires
        0 <= i < processes.len(),
        roots.contains(processes[i].parent_pid) || is_descendant(
            processes,
            roots,
            processes[i].parent_pid,
        ),
    ensures
        is_descendant(processes, roots, processes[i].pid),
{
    if roots.contains(processes[i].parent_pid) {
        assert(descends(processes, roots, processes[i].pid, 0));
    } else {
        let depth = choose|depth: nat|
            descends(processes, roots, processes[i].parent_pid, depth);
        assert(descends(processes, roots, processes[i].pid, depth + 1));
    }
}

/// One more round over the programs: adds those started by a root or by one
/// that was found already.
fn extend_descendants(
    processes: &Vec<ProcessInfo>,
    roots: &Vec<u32>,
    found: &mut Vec<u32>,
    seen: &mut Vec<bool>,
) -> (added: bool)
    requires
        old(seen)@.len() == processes@.len(),
        forall|p: u32|
            old(found)@.contains(p) ==> is_descendant(processes@, roots@, p),
        forall|i: int|
            0 <= i < processes@.len() && old(seen)@[i] ==> old(found)@.contains(
                (#[trigger] processes@[i]).pid,
            ),
    ensures
        final(seen)@.len() == processes@.len(),
        forall|p: u32|
            final(found)@.contains(p) ==> is_descendant(processes@, roots@, p),
        forall|i: int|
            0 <= i < processes@.len() && final(seen)@[i] ==> final(found)@.contains(
                (#[trigger] processes@[i]).pid,
            ),
        added ==> unseen(final(seen)@) < unseen(old(seen)@),
        !added ==> final(seen)@ == old(seen)@,
        !added ==> forall|i: int|
            0 <= i < processes@.len() && (roots@.contains((#[trigger] processes@[i]).parent_pid)
                || final(found)@.contains(processes@[i].parent_pid)) ==> final(found)@.contains(
                processes@[i].pid,
            ),
{
    let mut added = false;
    let mut i: usize = 0;
    while i < processes.len()
        invariant
            i <= processes@.len(),
            seen@.len() == processes@.len(),
            old(seen)@.len() == processes@.len(),
            forall|p: u32| found@.contains(p) ==> is_descendant(processes@, roots@, p),
            forall|j: int|
                0 <= j < processes@.len() && seen@[j] ==> found@.contains(
                    (#[trigger] processes@[j]).pid,
                ),
            unseen(seen@) <= unseen(old(seen)@),
            added ==> unseen(seen@) < unseen(old(seen)@),
            !added ==> found@ == old(found)@ && seen@ == old(seen)@,
            !added ==> forall|j: int|
                0 <= j < i && (roots@.contains((#[trigger] processes@[j]).parent_pid)
                    || found@.contains(processes@[j].parent_pid)) ==> found@.contains(
                    processes@[j].pid,
                ),
        decreases processes@.len() - i,
    {
        let parent_pid: u32 = processes[i].parent_pid;
        if !seen[i] && (has_pid(roots, parent_pid) || has_pid(found, parent_pid)) {
            proof {
                lemma_child_descends(processes@, roots@, i as int);
            }
            let ghost before = found@;
            let ghost flags = seen@;
            let pid: u32 = processes[i].pid;
            found.push(pid);
            seen.set(i, true);
            added = true;
            proof {
                lemma_unseen_set(flags, i as int);
                assert(found@[before.len() as int] == pid);
                assert forall|p: u32| found@.contains(p) implies is_descendant(
                    processes@,
                    roots@,
                    p,
                ) by {
                    if p != pid {
                        let k = choose|k: int| 0 <= k < found@.len() && found@[k] == p;
                        assert(k < before.len() && before[k] == p);
                        assert(before.contains(p));
                    }
                }
                assert forall|j: int| 0 <= j < processes@.len() && seen@[j] implies found@.contains(
                    (#[trigger] processes@[j]).pid,
                ) by {
                    if j != i {
                        assert(before.contains(processes@[j].pid));
                        let k = choose|k: int|
                            0 <= k < before.len() && before[k] == processes@[j].pid;
                        assert(found@[k] == processes@[j].pid);
                    }
                }
            }
        }
        i = i + 1;
    }
    added
}

/// How many flags are not set.
pub open spec fn unseen(flags: Seq<bool>) -> nat
    decreases flags.len(),
{
    if flags.len() == 0 {
        0
    } else {
        unseen(flags.drop_last()) + (if flags.last() {
            0nat
        } else {
            1nat
        })
    }
}

proof fn lemma_unseen_set(flags: Seq<bool>, i: int)
    requires
        0 <= i < flags.len(),
        !flags[i],
    ensures
        unseen(flags.update(i, true)) + 1 == unseen(flags),
    decreases flags.len(),
{
    let set = flags.update(i, true);
    if i == flags.len() - 1 {
        assert(set.drop_last() =~= flags.drop_last());
    } else {
        lemma_unseen_set(flags.drop_last(), i);
        assert(set.drop_last() =~= flags.drop_last().update(i, true));
    }
}

/// Finds all programs that the roots started, directly or over others.
pub fn descendant_pids(processes: &Vec<ProcessInfo>, roots: &Vec<u32>) -> (r: Vec<u32>)
    ensures
        forall|pid: u32| r@.contains(pid) <==> is_descendant(processes@, roots@, pid),
{
    let mut found: Vec<u32> = Vec::new();
    let mut seen: Vec<bool> = Vec::new();
    let mut i: usize = 0;
    while i < processes.len()
        invariant
            i <= processes@.len(),
            seen@.len() == i,
            forall|j: int| 0 <= j < i ==> !seen@[j],
        decreases processes@.len() - i,
    {
        seen.push(false);
        i = i + 1;
    }
    let mut more = true;
    while more
        invariant
            seen@.len() == processes@.len(),
            forall|p: u32| found@.contains(p) ==> is_descendant(processes@, roots@, p),
            forall|j: int|
                0 <= j < processes@.len() && seen@[j] ==> found@.contains(
                    (#[trigger] processes@[j]).pid,
                ),
            !more ==> forall|j: int|
                0 <= j < processes@.len() && (roots@.contains(
                    (#[trigger] processes@[j]).parent_pid,
                ) || found@.contains(processes@[j].parent_pid)) ==> found@.contains(
                    processes@[j].pid,
                ),
        decreases
            unseen(seen@) + (if more {
                1nat
            } else {
                0nat
            }),
    {
        more = extend_descendants(processes, roots, &mut found, &mut seen);
    }
    assert forall|pid: u32| is_descendant(processes@, roots@, pid) implies found@.contains(
        pid,
    ) by {
        let depth = choose|depth: nat| descends(processes@, roots@, pid, depth);
        lemma_closed_holds_descendants(processes@, roots@, found@, pid, depth);
    }
    found
}

/// The numbers of the programs that are kept, in order.
pub open spec fn picked(processes: Seq<ProcessInfo>, keep: spec_fn(int) -> bool) -> Seq<u32>
    decreases processes.len(),
{
    if processes.len() == 0 {
        Seq::empty()
    } else {
        let before = picked(processes.drop_last(), keep);
        if keep(processes.len() - 1) {
            before.push(processes.last().pid)
        } else {
            before
        }
    }
}

/// The paths of the programs that are kept, in order.
pub open spec fn picked_paths(
    processes: Seq<ProcessInfo>,
    keep: spec_fn(int) -> bool,
) -> Seq<Seq<char>>
    decreases processes.len(),
{
    if processes.len() == 0 {
        Seq::empty()
    } else {
        let before = picked_paths(processes.drop_last(), keep);
        if keep(processes.len() - 1) {
            before.push(processes.last().executable@)
        } else {
            before
        }
    }
}

/// Every number that was picked is that of a program that is kept.
pub proof fn lemma_picked(processes: Seq<ProcessInfo>, keep: spec_fn(int) -> bool, pid: u32)
    requires
        picked(processes, keep).contains(pid),
    ensures
        exists|i: int| 0 <= i < processes.len() && keep(i) && (#[trigger] processes[i]).pid == pid,
    decreases processes.len(),
{
    if processes.len() > 0 {
        let front = processes.drop_last();
        let before = picked(front, keep);
        let k = choose|k: int|
            0 <= k < picked(processes, keep).len() && picked(processes, keep)[k] == pid;
        if k < before.len() {
            assert(before[k] == pid);
            lemma_picked(front, keep, pid);
            let i = choose|i: int|
                0 <= i < front.len() && keep(i) && (#[trigger] front[i]).pid == pid;
            assert(processes[i] == front[i]);
        } else {
            assert(processes[processes.len() - 1].pid == pid);
        }
    }
}

/// What is known of a running desktop application: its programs, what they
/// started, and the bundle or the programs' own paths.
#[derive(Debug, PartialEq, Eq)]
pub struct RunningHost {
    pub platform: HostPlatform,
    pub pids: Vec<u32>,
    pub descendants: Vec<u32>,
    pub bundle: String,
    pub executables: Vec<String>,
}

/// Whether the program at a place of a sighting belongs to the host.
pub open spec fn is_host_program(
    platform: HostPlatform,
    bundle: Seq<char>,
    sighting: Sighting,
    i: int,
) -> bool {
    let executable = sighting.processes@[i].executable@;
    match platform {
        HostPlatform::Mac => bundle_of(executable) matches Some(b) && same_place(
            PathStyle::Unix,
            b,
            bundle,
        ) && sighting.kinds@[i] == BundleKind::Codex,
        HostPlatform::Windows => is_windows_host(executable, sighting.embedded@[i]),
        HostPlatform::Unsupported => false,
    }
}

fn belongs_to_host(platform: HostPlatform, bundle: &str, sighting: &Sighting, i: usize) -> (r: bool)
    requires
        sighting.well_formed(),
        i < sighting.processes@.len(),
    ensures
        r == is_host_program(platform, bundle@, *sighting, i as int),
{
    let executable = sighting.processes[i].executable.as_str();
    match platform {
        HostPlatform::Mac => match enclosing_app_bundle(executable) {
            Some(found) => same_path(PathStyle::Unix, found.as_str(), bundle) && sighting.kinds[i]
                == BundleKind::Codex,
            None => false,
        },
        HostPlatform::Windows => is_windows_codex_host_path(executable, sighting.embedded[i]),
        HostPlatform::Unsupported => false,
    }
}

/// The programs among the expected ones that still run and still belong to the host.
pub open spec fn verified_pids(
    platform: HostPlatform,
    bundle: Seq<char>,
    expected: Seq<u32>,
    sighting: Sighting,
) -> Seq<u32> {
    picked(
        sighting.processes@,
        |i: int|
            expected.contains(sighting.processes@[i].pid) && is_host_program(
                platform,
                bundle,
                sighting,
                i,
            ),
    )
}

/// Finds the programs among the expected ones that still run and still belong
/// to the host.
pub fn verified_host_pids(
    platform: HostPlatform,
    bundle: &str,
    expected: &Vec<u32>,
    sighting: &Sighting,
) -> (r: Vec<u32>)
    requires
        sighting.well_formed(),
    ensures
        r@ == verified_pids(platform, bundle@, expected@, *sighting),
{
    let ghost keep = |i: int|
        expected@.contains(sighting.processes@[i].pid) && is_host_program(
            platform,
            bundle@,
            *sighting,
            i,
        );
    let mut out: Vec<u32> = Vec::new();
    let mut i: usize = 0;
    assert(sighting.processes@.take(0) =~= Seq::empty());
    while i < sighting.processes.len()
        invariant
            sighting.well_formed(),
            keep == (|i: int|
                expected@.contains(sighting.processes@[i].pid) && is_host_program(
                    platform,
                    bundle@,
                    *sighting,
                    i,
                )),
            i <= sighting.processes@.len(),
            out@ == picked(sighting.processes@.take(i as int), keep),
        decreases sighting.processes@.len() - i,
    {
        assert(sighting.processes@.take(i + 1).drop_last() =~= sighting.processes@.take(i as int));
        if has_pid(expected, sighting.processes[i].pid) && belongs_to_host(
            platform,
            bundle,
            sighting,
            i,
        ) {
            out.push(sighting.processes[i].pid);
        }
        i = i + 1;
    }
    assert(sighting.processes@.take(i as int) =~= sighting.processes@);
    out
}

/// Whether a program of the service stands in the bundle.
pub open spec fn is_bundled_service(bundle: Seq<char>, executable: Seq<char>) -> bool {
    lies_in(PathStyle::Unix, executable, bundle) && name_in(PathStyle::Unix, executable) == Some(
        "codex"@,
    )
}

/// Whether a program stands below the directory of one of the host's programs.
pub open spec fn is_beside_host(executables: Seq<String>, executable: Seq<char>) -> bool {
    exists|k: int|
        0 <= k < executables.len() && stands_beside((#[trigger] executables[k])@, executable)
}

/// Whether a program stands below the directory of another.
pub open spec fn stands_beside(host: Seq<char>, executable: Seq<char>) -> bool {
    parent_of(PathStyle::Windows, host) matches Some(dir) && lies_in(
        PathStyle::Windows,
        executable,
        dir,
    )
}

/// Whether the program at a place of a sighting is a service that the host started.
pub open spec fn is_captured_service(host: RunningHost, sighting: Sighting, i: int) -> bool {
    let process = sighting.processes@[i];
    &&& host.descendants@.contains(process.pid)
    &&& match host.platform {
        HostPlatform::Mac => is_bundled_service(host.bundle@, process.executable@),
        HostPlatform::Windows => holds(lowered(process.command_line@), "app-server"@)
            && is_beside_host(host.executables@, process.executable@),
        HostPlatform::Unsupported => false,
    }
}

fn bundled_service(bundle: &str, executable: &str) -> (r: bool)
    ensures
        r == is_bundled_service(bundle@, executable@),
{
    path_lies_in(PathStyle::Unix, executable, bundle) && has_file_name(
        PathStyle::Unix,
        executable,
        "codex",
    )
}

fn beside_host(executables: &Vec<String>, executable: &str) -> (r: bool)
    ensures
        r == is_beside_host(executables@, executable@),
{
    let mut k: usize = 0;
    while k < executables.len()
        invariant
            k <= executables@.len(),
            forall|j: int|
                0 <= j < k ==> !stands_beside((#[trigger] executables@[j])@, executable@),
        decreases executables@.len() - k,
    {
        if let Some(dir) = parent(PathStyle::Windows, executables[k].as_str()) {
            if path_lies_in(PathStyle::Windows, executable, dir.as_str()) {
                assert(stands_beside(executables@[k as int]@, executable@));
                return true;
            }
        }
        k = k + 1;
    }
    false
}

/// The services that the host started and that still run.
pub open spec fn captured_services(host: RunningHost, sighting: Sighting) -> Seq<u32> {
    picked(sighting.processes@, |i: int| is_captured_service(host, sighting, i))
}

/// Finds the services that the host started and that still run.
pub fn captured_service_pids(host: &RunningHost, sighting: &Sighting) -> (r: Vec<u32>)
    ensures
        r@ == captured_services(*host, *sighting),
{
    let ghost keep = |i: int| is_captured_service(*host, *sighting, i);
    let mut out: Vec<u32> = Vec::new();
    let mut i: usize = 0;
    assert(sighting.processes@.take(0) =~= Seq::empty());
    while i < sighting.processes.len()
        invariant
            keep == (|i: int| is_captured_service(*host, *sighting, i)),
            i <= sighting.processes@.len(),
            out@ == picked(sighting.processes@.take(i as int), keep),
        decreases sighting.processes@.len() - i,
    {
        assert(sighting.processes@.take(i + 1).drop_last() =~= sighting.processes@.take(i as int));
        let process = &sighting.processes[i];
        let captured = has_pid(&host.descendants, process.pid) && match host.platform {
            HostPlatform::Mac => bundled_service(
                host.bundle.as_str(),
                process.executable.as_str(),
            ),
            HostPlatform::Windows => contains_text(
                lower_text(process.command_line.as_str()).as_str(),
                "app-server",
            ) && beside_host(&host.executables, process.executable.as_str()),
            HostPlatform::Unsupported => false,
        };
        if captured {
            out.push(process.pid);
        }
        i = i + 1;
    }
    assert(sighting.processes@.take(i as int) =~= sighting.processes@);
    out
}

/// Whether none of some programs is running.
pub fn all_absent(pids: &Vec<u32>, processes: &Vec<ProcessInfo>) -> (r: bool)
    ensures
        r == forall|i: int|
            0 <= i < processes@.len() ==> !pids@.contains((#[trigger] processes@[i]).pid),
{
    let mut i: usize = 0;
    while i < processes.len()
        invariant
            i <= processes@.len(),
            forall|j: int| 0 <= j < i ==> !pids@.contains((#[trigger] processes@[j]).pid),
        decreases processes@.len() - i,
    {
        if has_pid(pids, processes[i].pid) {
            assert(pids@.contains(processes@[i as int].pid));
            return false;
        }
        i = i + 1;
    }
    true
}

/// What an attempt to end a program means: it failed only where the program
/// still runs.
pub fn judge_signal(
    platform: HostPlatform,
    pid: u32,
    success: bool,
    processes: &Vec<ProcessInfo>,
) -> (r: Result<(), AppError>)
    ensures
        match r {
            Ok(_) => success || forall|i: int|
                0 <= i < processes@.len() ==> (#[trigger] processes@[i]).pid != pid,
            Err(e) => !success && (exists|i: int|
                0 <= i < processes@.len() && (#[trigger] processes@[i]).pid == pid) && e@
                == ErrorModel::DesktopSwitch(
                (if platform is Mac {
                    "无法结束已确认的 Codex 桌面宿主进程 PID "@
                } else {
                    "无法结束已确认的 Codex 进程 PID "@
                }) + digits(pid as nat),
            ),
        },
{
    if success {
        return Ok(());
    }
    let mut i: usize = 0;
    while i < processes.len()
        invariant
            !success,
            i <= processes@.len(),
            forall|j: int| 0 <= j < i ==> (#[trigger] processes@[j]).pid != pid,
        decreases processes@.len() - i,
    {
        if processes[i].pid == pid {
            let mut detail = match platform {
                HostPlatform::Mac => "无法结束已确认的 Codex 桌面宿主进程 PID ".to_owned(),
                _ => "无法结束已确认的 Codex 进程 PID ".to_owned(),
            };
            detail.append(digits_text(pid as u128).as_str());
            assert(processes@[i as int].pid == pid);
            return Err(AppError::DesktopSwitch(detail));
        }
        i = i + 1;
    }
    Ok(())
}

/// What a first look at the running programs means.
#[derive(Debug, PartialEq, Eq)]
pub enum StopDecision {
    NotRunning(HostShutdown),
    Running(RunningHost),
}

/// The programs of the application that a look shows, with their bundles, or
/// why nothing may be ended.
pub open spec fn mac_hosts(sighting: Sighting, n: int) -> Result<
    Seq<(u32, Seq<char>)>,
    ErrorModel,
>
    decreases n,
{
    if n <= 0 {
        Ok(Seq::empty())
    } else {
        match mac_hosts(sighting, n - 1) {
            Err(e) => Err(e),
            Ok(before) => {
                let process = sighting.processes@[n - 1];
                match bundle_of(process.executable@) {
                    None => {
                        let name = name_in(PathStyle::Unix, process.executable@);
                        if name == Some("ChatGPT"@) || name == Some("Codex"@) {
                            Err(
                                ErrorModel::DesktopSwitch(
                                    "检测到无法定位所属 .app 的 ChatGPT/Codex 候选进程；无法确认身份，请手动关闭 Codex 桌面宿主后重试"@,
                                ),
                            )
                        } else {
                            Ok(before)
                        }
                    },
                    Some(bundle) => match sighting.kinds@[n - 1] {
                        BundleKind::Codex => Ok(before.push((process.pid, bundle))),
                        BundleKind::EmbeddedCodexOnly => Err(
                            ErrorModel::DesktopSwitch(
                                "检测到内含 Codex CLI 但 Bundle ID 不是 com.openai.codex 的运行中应用："@
                                    + bundle + "。为避免误关闭，请手动退出后重试"@,
                            ),
                        ),
                        _ => Ok(before),
                    },
                }
            },
        }
    }
}

/// What a list of programs with their bundles says.
pub open spec fn host_models(hosts: Seq<(u32, String)>) -> Seq<(u32, Seq<char>)> {
    Seq::new(hosts.len(), |i: int| (hosts[i].0, hosts[i].1@))
}

fn find_mac_hosts(sighting: &Sighting) -> (r: Result<Vec<(u32, String)>, AppError>)
    requires
        sighting.well_formed(),
    ensures
        match mac_hosts(*sighting, sighting.processes@.len() as int) {
            Ok(hosts) => r matches Ok(list) && host_models(list@) == hosts,
            Err(fault) => r matches Err(e) && e@ == fault,
        },
{
    let mut hosts: Vec<(u32, String)> = Vec::new();
    let mut i: usize = 0;
    assert(host_models(hosts@) =~= Seq::empty());
    while i < sighting.processes.len()
        invariant
            sighting.well_formed(),
            i <= sighting.processes@.len(),
            mac_hosts(*sighting, i as int) == Ok::<Seq<(u32, Seq<char>)>, ErrorModel>(
                host_models(hosts@),
            ),
        decreases sighting.processes@.len() - i,
    {
        let executable = sighting.processes[i].executable.as_str();
        match enclosing_app_bundle(executable) {
            None => {
                if has_file_name(PathStyle::Unix, executable, "ChatGPT") || has_file_name(
                    PathStyle::Unix,
                    executable,
                    "Codex",
                ) {
                    proof {
                        lemma_mac_fault(
                            *sighting,
                            i + 1,
                            sighting.processes@.len() as int,
                        );
                    }
                    return Err(
                        AppError::DesktopSwitch(
                            "检测到无法定位所属 .app 的 ChatGPT/Codex 候选进程；无法确认身份，请手动关闭 Codex 桌面宿主后重试".to_owned(),
                        ),
                    );
                }
            },
            Some(bundle) => match sighting.kinds[i] {
                BundleKind::Codex => {
                    let ghost before = host_models(hosts@);
                    hosts.push((sighting.processes[i].pid, bundle));
                    assert(host_models(hosts@) =~= before.push(
                        (sighting.processes@[i as int].pid, bundle@),
                    ));
                },
                BundleKind::EmbeddedCodexOnly => {
                    let mut detail = "检测到内含 Codex CLI 但 Bundle ID 不是 com.openai.codex 的运行中应用：".to_owned();
                    detail.append(bundle.as_str());
                    detail.append("。为避免误关闭，请手动退出后重试");
                    proof {
                        lemma_mac_fault(
                            *sighting,
                            i + 1,
                            sighting.processes@.len() as int,
                        );
                    }
                    return Err(AppError::DesktopSwitch(detail));
                },
                _ => {},
            },
        }
        i = i + 1;
    }
    Ok(hosts)
}

proof fn lemma_mac_fault(sighting: Sighting, k: int, n: int)
    requires
        0 <= k <= n,
        mac_hosts(sighting, k) is Err,
    ensures
        mac_hosts(sighting, n) == mac_hosts(sighting, k),
    decreases n,
{
    if k < n {
        lemma_mac_fault(sighting, k, n - 1);
    }
}

/// Whether all programs of the application stand in one bundle.
pub open spec fn in_one_bundle(hosts: Seq<(u32, Seq<char>)>) -> bool {
    forall|i: int|
        0 <= i < hosts.len() ==> same_place(
            PathStyle::Unix,
            (#[trigger] hosts[i]).1,
            hosts[0].1,
        )
}

/// The numbers of the programs of the application.
pub open spec fn host_pids(hosts: Seq<(u32, Seq<char>)>) -> Seq<u32> {
    Seq::new(hosts.len(), |i: int| hosts[i].0)
}

/// Whether a program that may be the application hides its path.
pub open spec fn hides_path(process: ProcessInfo) -> bool {
    let name = lowered(process.name@);
    (name == "chatgpt.exe"@ || name == "codex.exe"@) && process.executable@.len() == 0
}

/// The programs of the application that a look shows on Windows.
pub open spec fn windows_pids(sighting: Sighting) -> Seq<u32> {
    picked(
        sighting.processes@,
        |i: int|
            is_windows_host(sighting.processes@[i].executable@, sighting.embedded@[i]),
    )
}

/// The paths of the programs of the application that a look shows on Windows.
pub open spec fn windows_paths(sighting: Sighting) -> Seq<Seq<char>> {
    picked_paths(
        sighting.processes@,
        |i: int|
            is_windows_host(sighting.processes@[i].executable@, sighting.embedded@[i]),
    )
}

/// Whether every descendant of the host's programs, and nothing else, was captured.
pub open spec fn captures_descendants(host: RunningHost, sighting: Sighting) -> bool {
    forall|pid: u32|
        host.descendants@.contains(pid) <==> is_descendant(
            sighting.processes@,
            host.pids@,
            pid,
        )
}

fn stop_mac(sighting: &Sighting) -> (r: Result<StopDecision, AppError>)
    requires
        sighting.well_formed(),
    ensures
        match mac_hosts(*sighting, sighting.processes@.len() as int) {
            Err(fault) => r matches Err(e) && e@ == fault,
            Ok(hosts) => if hosts.len() == 0 {
                r matches Ok(StopDecision::NotRunning(shutdown)) && !shutdown.was_running
                    && shutdown.launch_target is None
            } else if !in_one_bundle(hosts) {
                r matches Err(e) && e@ == ErrorModel::DesktopSwitch(
                    "同时检测到多个 com.openai.codex 桌面宿主安装实例；请手动全部退出后重试"@,
                )
            } else {
                r matches Ok(StopDecision::Running(host)) && host.platform == HostPlatform::Mac
                    && host.pids@ == host_pids(hosts) && host.bundle@ == hosts[0].1
                    && captures_descendants(host, *sighting)
            },
        },
{
    let hosts = match find_mac_hosts(sighting) {
        Ok(hosts) => hosts,
        Err(e) => {
            return Err(e);
        },
    };
    let ghost models = host_models(hosts@);
    if hosts.len() == 0 {
        return Ok(
            StopDecision::NotRunning(HostShutdown { was_running: false, launch_target: None }),
        );
    }
    let bundle = hosts[0].1.clone();
    let mut pids: Vec<u32> = Vec::new();
    let mut i: usize = 0;
    while i < hosts.len()
        invariant
            sighting.well_formed(),
            models == host_models(hosts@),
            mac_hosts(*sighting, sighting.processes@.len() as int) == Ok::<
                Seq<(u32, Seq<char>)>,
                ErrorModel,
            >(models),
            hosts@.len() > 0,
            bundle@ == models[0].1,
            i <= hosts@.len(),
            pids@ == host_pids(models).take(i as int),
            forall|j: int|
                0 <= j < i ==> same_place(PathStyle::Unix, (#[trigger] models[j]).1, bundle@),
        decreases hosts@.len() - i,
    {
        assert(models[i as int] == (hosts@[i as int].0, hosts@[i as int].1@));
        if !same_path(PathStyle::Unix, hosts[i].1.as_str(), bundle.as_str()) {
            assert(!in_one_bundle(models));
            return Err(
                AppError::DesktopSwitch(
                    "同时检测到多个 com.openai.codex 桌面宿主安装实例；请手动全部退出后重试".to_owned(),
                ),
            );
        }
        pids.push(hosts[i].0);
        i = i + 1;
        assert(pids@ =~= host_pids(models).take(i as int));
    }
    assert(host_pids(models).take(i as int) =~= host_pids(models));
    let descendants = descendant_pids(&sighting.processes, &pids);
    Ok(
        StopDecision::Running(
            RunningHost {
                platform: HostPlatform::Mac,
                pids,
                descendants,
                bundle,
                executables: Vec::new(),
            },
        ),
    )
}

fn any_hides_path(processes: &Vec<ProcessInfo>) -> (r: bool)
    ensures
        r == exists|i: int| 0 <= i < processes@.len() && hides_path(#[trigger] processes@[i]),
{
    let mut i: usize = 0;
    while i < processes.len()
        invariant
            i <= processes@.len(),
            forall|j: int| 0 <= j < i ==> !hides_path(#[trigger] processes@[j]),
        decreases processes@.len() - i,
    {
        let name = lower_text(processes[i].name.as_str());
        if (same_text(name.as_str(), "chatgpt.exe") || same_text(name.as_str(), "codex.exe"))
            && processes[i].executable.as_str().is_empty() {
            assert(hides_path(processes@[i as int]));
            return true;
        }
        i = i + 1;
    }
    false
}

fn stop_windows(sighting: &Sighting) -> (r: Result<StopDecision, AppError>)
    requires
        sighting.well_formed(),
    ensures
        if exists|i: int|
            0 <= i < sighting.processes@.len() && hides_path(#[trigger] sighting.processes@[i]) {
            r matches Err(e) && e@ == ErrorModel::DesktopSwitch(
                "检测到无法读取完整路径的 ChatGPT/Codex 候选进程；无法确认身份，请手动关闭 Codex 桌面宿主后重试"@,
            )
        } else if windows_pids(*sighting).len() == 0 {
            r matches Ok(StopDecision::NotRunning(shutdown)) && !shutdown.was_running
                && shutdown.launch_target is None
        } else {
            r matches Ok(StopDecision::Running(host)) && host.platform == HostPlatform::Windows
                && host.pids@ == windows_pids(*sighting) && texts(host.executables@)
                == windows_paths(*sighting) && host.executables@.len() > 0 && captures_descendants(
                host,
                *sighting,
            )
        },
{
    if any_hides_path(&sighting.processes) {
        return Err(
            AppError::DesktopSwitch(
                "检测到无法读取完整路径的 ChatGPT/Codex 候选进程；无法确认身份，请手动关闭 Codex 桌面宿主后重试".to_owned(),
            ),
        );
    }
    let ghost keep = |i: int|
        is_windows_host(sighting.processes@[i].executable@, sighting.embedded@[i]);
    let mut pids: Vec<u32> = Vec::new();
    let mut executables: Vec<String> = Vec::new();
    let mut i: usize = 0;
    assert(sighting.processes@.take(0) =~= Seq::empty());
    assert(texts(executables@) =~= Seq::empty());
    while i < sighting.processes.len()
        invariant
            sighting.well_formed(),
            keep == (|i: int|
                is_windows_host(sighting.processes@[i].executable@, sighting.embedded@[i])),
            i <= sighting.processes@.len(),
            pids@ == picked(sighting.processes@.take(i as int), keep),
            texts(executables@) == picked_paths(sighting.processes@.take(i as int), keep),
            executables@.len() == pids@.len(),
        decreases sighting.processes@.len() - i,
    {
        assert(sighting.processes@.take(i + 1).drop_last() =~= sighting.processes@.take(i as int));
        let executable = &sighting.processes[i].executable;
        if is_windows_codex_host_path(executable.as_str(), sighting.embedded[i]) {
            let ghost before = texts(executables@);
            pids.push(sighting.processes[i].pid);
            executables.push(executable.clone());
            assert(texts(executables@) =~= before.push(executable@));
        }
        i = i + 1;
    }
    assert(sighting.processes@.take(i as int) =~= sighting.processes@);
    if pids.len() == 0 {
        return Ok(
            StopDecision::NotRunning(HostShutdown { was_running: false, launch_target: None }),
        );
    }
    let descendants = descendant_pids(&sighting.processes, &pids);
    Ok(
        StopDecision::Running(
            RunningHost {
                platform: HostPlatform::Windows,
                pids,
                descendants,
                bundle: String::new(),
                executables,
            },
        ),
    )
}

/// Tells by a first look whether the application runs, and refuses where it
/// cannot be told from others.
pub fn stop_for_switch(platform: HostPlatform, sighting: &Sighting) -> (r: Result<
    StopDecision,
    AppError,
>)
    requires
        sighting.well_formed(),
    ensures
        match platform {
            HostPlatform::Unsupported => r matches Err(e) && e@ == ErrorModel::DesktopSwitch(
                "当前平台不支持桌面账号切换"@,
            ),
            HostPlatform::Mac => match mac_hosts(*sighting, sighting.processes@.len() as int) {
                Err(fault) => r matches Err(e) && e@ == fault,
                Ok(hosts) => if hosts.len() == 0 {
                    r matches Ok(StopDecision::NotRunning(shutdown)) && !shutdown.was_running
                        && shutdown.launch_target is None
                } else if !in_one_bundle(hosts) {
                    r matches Err(e) && e@ == ErrorModel::DesktopSwitch(
                        "同时检测到多个 com.openai.codex 桌面宿主安装实例；请手动全部退出后重试"@,
                    )
                } else {
                    r matches Ok(StopDecision::Running(host)) && host.platform == platform
                        && host.pids@ == host_pids(hosts) && host.bundle@ == hosts[0].1
                        && captures_descendants(host, *sighting)
                },
            },
            HostPlatform::Windows => if exists|i: int|
                0 <= i < sighting.processes@.len() && hides_path(
                    #[trigger] sighting.processes@[i],
                ) {
                r matches Err(e) && e@ == ErrorModel::DesktopSwitch(
                    "检测到无法读取完整路径的 ChatGPT/Codex 候选进程；无法确认身份，请手动关闭 Codex 桌面宿主后重试"@,
                )
            } else if windows_pids(*sighting).len() == 0 {
                r matches Ok(StopDecision::NotRunning(shutdown)) && !shutdown.was_running
                    && shutdown.launch_target is None
            } else {
                r matches Ok(StopDecision::Running(host)) && host.platform == platform
                    && host.pids@ == windows_pids(*sighting) && texts(host.executables@)
                    == windows_paths(*sighting) && host.executables@.len() > 0
                    && captures_descendants(host, *sighting)
            },
        },
{
    match platform {
        HostPlatform::Mac => stop_mac(sighting),
        HostPlatform::Windows => stop_windows(sighting),
        HostPlatform::Unsupported => Err(
            AppError::DesktopSwitch("当前平台不支持桌面账号切换".to_owned()),
        ),
    }
}

impl RunningHost {
    /// Whether the path of a program is known where that starts it again.
    pub open spec fn well_formed(self) -> bool {
        self.platform is Windows ==> self.executables@.len() > 0
    }
}

/// How far the ending of the application has come.
#[derive(Debug, PartialEq, Eq)]
pub enum StopStage {
    /// It was asked to end.
    Asked,
    /// These of its programs were told to end.
    Terminated(Vec<u32>),
    /// These of its programs were ended by force.
    Killed(Vec<u32>),
    /// Its own programs are gone; what they started may be left.
    Services,
    /// These services were told to end.
    ServicesTerminated(Vec<u32>),
}

/// What comes after some signals.
#[derive(Debug, PartialEq, Eq)]
pub enum StopNext {
    /// Look again and go on.
    Stage(StopStage),
    /// Find out how the system starts the packaged program at this path.
    Resolve(String),
    /// The application has ended.
    Done(HostShutdown),
    /// The application could not be ended.
    Fail(AppError),
}

/// What to do to end the application: signal programs, wait until others are
/// gone or the time is over, and go on.
#[derive(Debug, PartialEq, Eq)]
pub struct StopMove {
    pub signal: Vec<u32>,
    pub force: bool,
    pub wait_for: Vec<u32>,
    pub wait_millis: u64,
    pub next: StopNext,
}

/// Whether a service that was told to end is still what it was.
pub open spec fn is_unchanged_service(host: RunningHost, sighting: Sighting, i: int) -> bool {
    is_bundled_service(host.bundle@, sighting.processes@[i].executable@)
}

/// The number of programs before the first that was told to end and is no
/// longer what it was.
pub open spec fn unchanged_until(
    host: RunningHost,
    sighting: Sighting,
    told: Seq<u32>,
    from: int,
) -> int
    decreases sighting.processes@.len() - from,
{
    if from >= sighting.processes@.len() {
        sighting.processes@.len() as int
    } else if told.contains(sighting.processes@[from].pid) && !is_unchanged_service(
        host,
        sighting,
        from,
    ) {
        from
    } else {
        unchanged_until(host, sighting, told, from + 1)
    }
}

/// The services that were told to end and are ended by force.
pub open spec fn services_to_kill(host: RunningHost, sighting: Sighting, told: Seq<u32>) -> Seq<
    u32,
> {
    picked(
        sighting.processes@.take(unchanged_until(host, sighting, told, 0)),
        |i: int|
            told.contains(sighting.processes@[i].pid) && is_unchanged_service(host, sighting, i),
    )
}

/// The programs that are signalled at a stage.
pub open spec fn stage_signals(host: RunningHost, stage: StopStage, sighting: Sighting) -> Seq<
    u32,
> {
    match stage {
        StopStage::Asked => verified_pids(host.platform, host.bundle@, host.pids@, sighting),
        StopStage::Terminated(told) => verified_pids(
            host.platform,
            host.bundle@,
            told@,
            sighting,
        ),
        StopStage::Killed(_) => Seq::empty(),
        StopStage::Services => captured_services(host, sighting),
        StopStage::ServicesTerminated(told) => services_to_kill(host, sighting, told@),
    }
}

fn find_services_to_kill(host: &RunningHost, sighting: &Sighting, told: &Vec<u32>) -> (r: (
    Vec<u32>,
    Option<u32>,
))
    ensures
        r.0@ == services_to_kill(*host, *sighting, told@),
        match r.1 {
            Some(pid) => unchanged_until(*host, *sighting, told@, 0) < sighting.processes@.len()
                && sighting.processes@[unchanged_until(*host, *sighting, told@, 0)].pid == pid,
            None => unchanged_until(*host, *sighting, told@, 0) == sighting.processes@.len(),
        },
{
    let ghost keep = |i: int|
        told@.contains(sighting.processes@[i].pid) && is_unchanged_service(*host, *sighting, i);
    let ghost end = unchanged_until(*host, *sighting, told@, 0);
    let mut out: Vec<u32> = Vec::new();
    let mut i: usize = 0;
    assert(sighting.processes@.take(0) =~= Seq::empty());
    while i < sighting.processes.len()
        invariant
            keep == (|i: int|
                told@.contains(sighting.processes@[i].pid) && is_unchanged_service(
                    *host,
                    *sighting,
                    i,
                )),
            i <= sighting.processes@.len(),
            end == unchanged_until(*host, *sighting, told@, 0),
            end == unchanged_until(*host, *sighting, told@, i as int),
            out@ == picked(sighting.processes@.take(i as int), keep),
        decreases sighting.processes@.len() - i,
    {
        assert(sighting.processes@.take(i + 1).drop_last() =~= sighting.processes@.take(i as int));
        let process = &sighting.processes[i];
        if has_pid(told, process.pid) {
            if !bundled_service(host.bundle.as_str(), process.executable.as_str()) {
                return (out, Some(process.pid));
            }
            out.push(process.pid);
        }
        i = i + 1;
    }
    (out, None)
}

fn finished(host: &RunningHost) -> (r: StopNext)
    requires
        host.well_formed(),
    ensures
        is_end(*host, r),
{
    match host.platform {
        HostPlatform::Windows => {
            let executable = host.executables[0].clone();
            if is_msix_path(executable.as_str()) {
                StopNext::Resolve(executable)
            } else {
                StopNext::Done(
                    HostShutdown {
                        was_running: true,
                        launch_target: Some(LaunchTarget::WindowsExecutable(executable)),
                    },
                )
            }
        },
        _ => StopNext::Done(
            HostShutdown {
                was_running: true,
                launch_target: Some(LaunchTarget::MacBundle(host.bundle.clone())),
            },
        ),
    }
}

/// Whether this is how the ending of the application closes.
pub open spec fn is_end(host: RunningHost, next: StopNext) -> bool {
    match host.platform {
        HostPlatform::Windows => if is_packaged(host.executables@[0]@) {
            next == StopNext::Resolve(host.executables@[0])
        } else {
            next matches StopNext::Done(shutdown) && shutdown.was_running && shutdown.launch_target
                == Some(LaunchTarget::WindowsExecutable(host.executables@[0]))
        },
        _ => next matches StopNext::Done(shutdown) && shutdown.was_running && shutdown.launch_target
            == Some(LaunchTarget::MacBundle(host.bundle)),
    }
}

fn copy_pids(pids: &Vec<u32>) -> (r: Vec<u32>)
    ensures
        r@ == pids@,
{
    let mut out: Vec<u32> = Vec::new();
    let mut i: usize = 0;
    while i < pids.len()
        invariant
            i <= pids@.len(),
            out@ == pids@.take(i as int),
        decreases pids@.len() - i,
    {
        out.push(pids[i]);
        i = i + 1;
        assert(out@ =~= pids@.take(i as int));
    }
    assert(pids@.take(i as int) =~= pids@);
    out
}

/// What follows the request to end: time for the application to do so.
pub fn begin_stop(host: &RunningHost) -> (r: StopMove)
    ensures
        r.signal@.len() == 0,
        !r.force,
        r.wait_for@ == host.pids@,
        r.wait_millis == GRACEFUL_TIMEOUT_MILLIS,
        r.next matches StopNext::Stage(StopStage::Asked),
{
    StopMove {
        signal: Vec::new(),
        force: false,
        wait_for: copy_pids(&host.pids),
        wait_millis: GRACEFUL_TIMEOUT_MILLIS,
        next: StopNext::Stage(StopStage::Asked),
    }
}

/// Goes on with the ending of the application after another look.
pub fn advance_stop(host: &RunningHost, stage: StopStage, sighting: &Sighting) -> (r: StopMove)
    requires
        host.well_formed(),
        sighting.well_formed(),
    ensures
        r.signal@ == stage_signals(*host, stage, *sighting),
        match stage {
            StopStage::Asked => match host.platform {
                HostPlatform::Windows => r.force && r.wait_for@ == host.pids@ && r.wait_millis
                    == TERM_TIMEOUT_MILLIS && (r.next matches StopNext::Stage(
                    StopStage::Killed(told),
                ) && told@ == host.pids@),
                _ => if r.signal@.len() == 0 {
                    !r.force && r.wait_for@.len() == 0 && r.wait_millis == 0
                        && r.next matches StopNext::Stage(StopStage::Services)
                } else {
                    !r.force && r.wait_for@ == r.signal@ && r.wait_millis == TERM_TIMEOUT_MILLIS
                        && (r.next matches StopNext::Stage(StopStage::Terminated(told)) && told@
                        == r.signal@)
                },
            },
            StopStage::Terminated(_) => r.force && r.wait_for@ == r.signal@ && r.wait_millis
                == TERM_TIMEOUT_MILLIS && (r.next matches StopNext::Stage(StopStage::Killed(told))
                && told@ == r.signal@),
            StopStage::Killed(told) => !r.force && r.wait_for@.len() == 0 && r.wait_millis == 0
                && if verified_pids(host.platform, host.bundle@, told@, *sighting).len() == 0 {
                r.next matches StopNext::Stage(StopStage::Services)
            } else {
                r.next matches StopNext::Fail(e) && e@ == ErrorModel::DesktopSwitch(
                    "已确认的 Codex 桌面宿主在有限等待后仍未退出"@,
                )
            },
            StopStage::Services => match host.platform {
                HostPlatform::Windows => r.force && r.wait_for@.len() == 0 && r.wait_millis == 0
                    && is_end(*host, r.next),
                _ => !r.force && r.wait_for@ == r.signal@ && r.wait_millis == TERM_TIMEOUT_MILLIS
                    && (r.next matches StopNext::Stage(StopStage::ServicesTerminated(told)) && told@
                    == r.signal@),
            },
            StopStage::ServicesTerminated(told) => r.force && r.wait_for@.len() == 0
                && r.wait_millis == 0 && if (unchanged_until(*host, *sighting, told@, 0)
                < sighting.processes@.len()) {
                r.next matches StopNext::Fail(e) && e@ == ErrorModel::DesktopSwitch(
                    "PID "@ + digits(
                        sighting.processes@[unchanged_until(*host, *sighting, told@, 0)].pid as nat,
                    ) + " 的身份在结束 App Server 前发生变化"@,
                )
            } else {
                is_end(*host, r.next)
            },
        },
{
    match stage {
        StopStage::Asked => {
            let left = verified_host_pids(
                host.platform,
                host.bundle.as_str(),
                &host.pids,
                sighting,
            );
            match host.platform {
                HostPlatform::Windows => StopMove {
                    signal: left,
                    force: true,
                    wait_for: copy_pids(&host.pids),
                    wait_millis: TERM_TIMEOUT_MILLIS,
                    next: StopNext::Stage(StopStage::Killed(copy_pids(&host.pids))),
                },
                _ => if left.len() == 0 {
                    StopMove {
                        signal: left,
                        force: false,
                        wait_for: Vec::new(),
                        wait_millis: 0,
                        next: StopNext::Stage(StopStage::Services),
                    }
                } else {
                    let wait_for = copy_pids(&left);
                    let told = copy_pids(&left);
                    StopMove {
                        signal: left,
                        force: false,
                        wait_for,
                        wait_millis: TERM_TIMEOUT_MILLIS,
                        next: StopNext::Stage(StopStage::Terminated(told)),
                    }
                },
            }
        },
        StopStage::Terminated(told) => {
            let left = verified_host_pids(host.platform, host.bundle.as_str(), &told, sighting);
            let wait_for = copy_pids(&left);
            let killed = copy_pids(&left);
            StopMove {
                signal: left,
                force: true,
                wait_for,
                wait_millis: TERM_TIMEOUT_MILLIS,
                next: StopNext::Stage(StopStage::Killed(killed)),
            }
        },
        StopStage::Killed(told) => {
            let left = verified_host_pids(host.platform, host.bundle.as_str(), &told, sighting);
            let next = if left.len() == 0 {
                StopNext::Stage(StopStage::Services)
            } else {
                StopNext::Fail(
                    AppError::DesktopSwitch(
                        "已确认的 Codex 桌面宿主在有限等待后仍未退出".to_owned(),
                    ),
                )
            };
            let signal: Vec<u32> = Vec::new();
            assert(signal@ =~= Seq::empty());
            StopMove { signal, force: false, wait_for: Vec::new(), wait_millis: 0, next }
        },
        StopStage::Services => {
            let found = captured_service_pids(host, sighting);
            match host.platform {
                HostPlatform::Windows => StopMove {
                    signal: found,
                    force: true,
                    wait_for: Vec::new(),
                    wait_millis: 0,
                    next: finished(host),
                },
                _ => {
                    let wait_for = copy_pids(&found);
                    let told = copy_pids(&found);
                    StopMove {
                        signal: found,
                        force: false,
                        wait_for,
                        wait_millis: TERM_TIMEOUT_MILLIS,
                        next: StopNext::Stage(StopStage::ServicesTerminated(told)),
                    }
                },
            }
        },
        StopStage::ServicesTerminated(told) => {
            let (signal, changed) = find_services_to_kill(host, sighting, &told);
            let next = match changed {
                Some(pid) => {
                    let mut detail = "PID ".to_owned();
                    detail.append(digits_text(pid as u128).as_str());
                    detail.append(" 的身份在结束 App Server 前发生变化");
                    StopNext::Fail(AppError::DesktopSwitch(detail))
                },
                None => finished(host),
            };
            StopMove { signal, force: true, wait_for: Vec::new(), wait_millis: 0, next }
        },
    }
}

/// Whether a look shows a program under a number that belongs to the host.
pub open spec fn is_seen_host(host: RunningHost, sighting: Sighting, pid: u32) -> bool {
    exists|i: int|
        0 <= i < sighting.processes@.len() && (#[trigger] sighting.processes@[i]).pid == pid
            && is_host_program(host.platform, host.bundle@, sighting, i)
}

/// Whether a look shows a service under a number: one that the host started, or
/// one that stands in its bundle and was told to end.
pub open spec fn is_seen_service(
    host: RunningHost,
    stage: StopStage,
    sighting: Sighting,
    pid: u32,
) -> bool {
    exists|i: int|
        0 <= i < sighting.processes@.len() && (#[trigger] sighting.processes@[i]).pid == pid && (
        is_captured_service(host, sighting, i) || (stage matches StopStage::ServicesTerminated(told)
            && told@.contains(pid) && is_unchanged_service(host, sighting, i)))
}

/// No program is signalled but one whose identity the latest look bears out: a
/// program of the host itself, or a service that the host started.
pub proof fn lemma_only_verified_programs_are_signalled(
    host: RunningHost,
    stage: StopStage,
    sighting: Sighting,
    pid: u32,
)
    requires
        stage_signals(host, stage, sighting).contains(pid),
    ensures
        is_seen_host(host, sighting, pid) || is_seen_service(host, stage, sighting, pid),
{
    match stage {
        StopStage::Asked => {
            lemma_verified(host, host.pids@, sighting, pid);
        },
        StopStage::Terminated(told) => {
            lemma_verified(host, told@, sighting, pid);
        },
        StopStage::Killed(_) => {},
        StopStage::Services => {
            let keep = |i: int| is_captured_service(host, sighting, i);
            lemma_picked(sighting.processes@, keep, pid);
        },
        StopStage::ServicesTerminated(told) => {
            let end = unchanged_until(host, sighting, told@, 0);
            lemma_unchanged_until(host, sighting, told@, 0);
            let front = sighting.processes@.take(end);
            let keep = |i: int|
                told@.contains(sighting.processes@[i].pid) && is_unchanged_service(
                    host,
                    sighting,
                    i,
                );
            lemma_picked(front, keep, pid);
            let i = choose|i: int|
                0 <= i < front.len() && keep(i) && (#[trigger] front[i]).pid == pid;
            assert(sighting.processes@[i] == front[i]);
        },
    }
}

proof fn lemma_verified(host: RunningHost, expected: Seq<u32>, sighting: Sighting, pid: u32)
    requires
        verified_pids(host.platform, host.bundle@, expected, sighting).contains(pid),
    ensures
        is_seen_host(host, sighting, pid),
{
    let keep = |i: int|
        expected.contains(sighting.processes@[i].pid) && is_host_program(
            host.platform,
            host.bundle@,
            sighting,
            i,
        );
    lemma_picked(sighting.processes@, keep, pid);
}

/// What the system says of how it starts a packaged program.
pub fn judge_aumid(success: bool, output: &str) -> (r: Option<String>)
    ensures
        text_of(r) == (if success && trimmed(output@).len() > 0 {
            Some(trimmed(output@))
        } else {
            None
        }),
{
    let value = trim_text(output);
    if success && !value.as_str().is_empty() {
        Some(value)
    } else {
        None
    }
}

/// The end of a packaged application, which can be started again where it is
/// known how.
pub fn packaged_shutdown(aumid: Option<String>) -> (r: HostShutdown)
    ensures
        r.was_running,
        match aumid {
            Some(name) => r.launch_target == Some(LaunchTarget::WindowsAumid(name)),
            None => r.launch_target is None,
        },
{
    HostShutdown {
        was_running: true,
        launch_target: match aumid {
            Some(name) => Some(LaunchTarget::WindowsAumid(name)),
            None => None,
        },
    }
}

/// Tells whether the application is to be started again: only where it ran
/// before, and an error where it did and nothing is known to start it.
pub fn restart_after_switch(shutdown: &HostShutdown) -> (r: Result<bool, AppError>)
    ensures
        match r {
            Ok(start) => start == shutdown.was_running && (start ==> shutdown.launch_target is Some),
            Err(e) => shutdown.was_running && shutdown.launch_target is None && e@
                == ErrorModel::DesktopSwitch(
                "凭据已切换，但找不到经过身份确认的桌面宿主启动目标，请手动打开 Codex 桌面应用"@,
            ),
        },
{
    if !shutdown.was_running {
        return Ok(false);
    }
    if shutdown.launch_target.is_none() {
        return Err(
            AppError::DesktopSwitch(
                "凭据已切换，但找不到经过身份确认的桌面宿主启动目标，请手动打开 Codex 桌面应用".to_owned(),
            ),
        );
    }
    Ok(true)
}

/// Refuses to start what is no longer the application.
pub fn check_launch(target: &LaunchTarget, confirmed: bool) -> (r: Result<(), AppError>)
    ensures
        match target {
            LaunchTarget::MacBundle(_) => if confirmed {
                r is Ok
            } else {
                r matches Err(e) && e@ == ErrorModel::DesktopSwitch(
                    "桌面宿主启动前的 Bundle ID 复核失败"@,
                )
            },
            LaunchTarget::WindowsExecutable(_) => if confirmed {
                r is Ok
            } else {
                r matches Err(e) && e@ == ErrorModel::DesktopSwitch(
                    "桌面宿主启动前的路径身份复核失败"@,
                )
            },
            LaunchTarget::WindowsAumid(_) => r is Ok,
        },
{
    if confirmed {
        return Ok(());
    }
    match target {
        LaunchTarget::MacBundle(_) => Err(
            AppError::DesktopSwitch("桌面宿主启动前的 Bundle ID 复核失败".to_owned()),
        ),
        LaunchTarget::WindowsExecutable(_) => Err(
            AppError::DesktopSwitch("桌面宿主启动前的路径身份复核失败".to_owned()),
        ),
        LaunchTarget::WindowsAumid(_) => Ok(()),
    }
}

proof fn lemma_picked_all(processes: Seq<ProcessInfo>, keep: spec_fn(int) -> bool, i: int)
    requires
        0 <= i < processes.len(),
        keep(i),
    ensures
        picked(processes, keep).contains(processes[i].pid),
        picked_paths(processes, keep).contains(processes[i].executable@),
    decreases processes.len(),
{
    let front = processes.drop_last();
    let pids = picked(front, keep);
    let paths = picked_paths(front, keep);
    if i < front.len() {
        lemma_picked_all(front, keep, i);
        let k = choose|k: int| 0 <= k < pids.len() && pids[k] == front[i].pid;
        assert(picked(processes, keep)[k] == processes[i].pid);
        let k = choose|k: int| 0 <= k < paths.len() && paths[k] == front[i].executable@;
        assert(picked_paths(processes, keep)[k] == processes[i].executable@);
    } else {
        assert(picked(processes, keep)[pids.len() as int] == processes[i].pid);
        assert(picked_paths(processes, keep)[paths.len() as int] == processes[i].executable@);
    }
}

proof fn lemma_picked_pairs(processes: Seq<ProcessInfo>, keep: spec_fn(int) -> bool, k: int)
    ensures
        picked(processes, keep).len() == picked_paths(processes, keep).len(),
        0 <= k < picked(processes, keep).len() ==> exists|i: int|
            0 <= i < processes.len() && keep(i) && (#[trigger] processes[i]).pid == picked(
                processes,
                keep,
            )[k] && processes[i].executable@ == picked_paths(processes, keep)[k],
    decreases processes.len(),
{
    if processes.len() > 0 {
        let front = processes.drop_last();
        lemma_picked_pairs(front, keep, k);
        let before = picked(front, keep);
        if 0 <= k < before.len() {
            let i = choose|i: int|
                0 <= i < front.len() && keep(i) && (#[trigger] front[i]).pid == before[k]
                    && front[i].executable@ == picked_paths(front, keep)[k];
            assert(processes[i] == front[i]);
        } else if 0 <= k < picked(processes, keep).len() {
            assert(keep(processes.len() - 1));
            assert(processes[processes.len() - 1].pid == picked(processes, keep)[k]);
        }
    }
}

/// On Windows every running program that is the desktop application is found, and
/// nothing else, each with its own path.
pub proof fn lemma_every_windows_host_is_found(sighting: Sighting, i: int, k: int)
    ensures
        0 <= i < sighting.processes@.len() && is_windows_host(
            sighting.processes@[i].executable@,
            sighting.embedded@[i],
        ) ==> windows_pids(sighting).contains(sighting.processes@[i].pid) && windows_paths(
            sighting,
        ).contains(sighting.processes@[i].executable@),
        windows_paths(sighting).len() == windows_pids(sighting).len(),
        0 <= k < windows_pids(sighting).len() ==> exists|j: int|
            0 <= j < sighting.processes@.len() && is_windows_host(
                sighting.processes@[j].executable@,
                sighting.embedded@[j],
            ) && (#[trigger] sighting.processes@[j]).pid == windows_pids(sighting)[k]
                && sighting.processes@[j].executable@ == windows_paths(sighting)[k],
{
    let keep = |i: int|
        is_windows_host(sighting.processes@[i].executable@, sighting.embedded@[i]);
    lemma_picked_pairs(sighting.processes@, keep, k);
    if 0 <= i < sighting.processes@.len() && keep(i) {
        lemma_picked_all(sighting.processes@, keep, i);
    }
    if 0 <= k < windows_pids(sighting).len() {
        let j = choose|j: int|
            0 <= j < sighting.processes@.len() && keep(j) && (#[trigger] sighting.processes@[j]).pid
                == picked(sighting.processes@, keep)[k] && sighting.processes@[j].executable@
                == picked_paths(sighting.processes@, keep)[k];
        assert(is_windows_host(sighting.processes@[j].executable@, sighting.embedded@[j]));
    }
}

/// Whether it cannot be told if a program belongs to the desktop application: it
/// has its name outside any bundle, or stands in another bundle with a program of
/// the service.
pub open spec fn is_doubtful(sighting: Sighting, i: int) -> bool {
    let executable = sighting.processes@[i].executable@;
    match bundle_of(executable) {
        Some(_) => sighting.kinds@[i] is EmbeddedCodexOnly,
        None => name_in(PathStyle::Unix, executable) == Some("ChatGPT"@) || name_in(
            PathStyle::Unix,
            executable,
        ) == Some("Codex"@),
    }
}

/// On a Mac every running program of a bundle with the application's identifier is
/// found with its bundle, and nothing else; one doubtful program is enough to
/// refuse, and nothing else is.
pub proof fn lemma_every_mac_host_is_found(sighting: Sighting, n: int, i: int, k: int)
    requires
        0 <= n <= sighting.processes@.len(),
    ensures
        mac_hosts(sighting, n) is Err <==> exists|j: int| 0 <= j < n && #[trigger] is_doubtful(sighting, j),
        mac_hosts(sighting, n) matches Ok(hosts) ==> {
            &&& 0 <= i < n && sighting.kinds@[i] == BundleKind::Codex ==> (bundle_of(
                sighting.processes@[i].executable@,
            ) matches Some(bundle) ==> hosts.contains((sighting.processes@[i].pid, bundle)))
            &&& 0 <= k < hosts.len() ==> exists|j: int|
                0 <= j < n && sighting.kinds@[j] == BundleKind::Codex && hosts[k].0 == (
                #[trigger] sighting.processes@[j]).pid && bundle_of(
                    sighting.processes@[j].executable@,
                ) == Some(hosts[k].1)
        },
    decreases n,
{
    if n > 0 {
        lemma_every_mac_host_is_found(sighting, n - 1, i, k);
        if mac_hosts(sighting, n - 1) is Err {
            let j = choose|j: int| 0 <= j < n - 1 && #[trigger] is_doubtful(sighting, j);
            assert(0 <= j < n && is_doubtful(sighting, j));
        } else {
            let before = mac_hosts(sighting, n - 1)->Ok_0;
            if is_doubtful(sighting, n - 1) {
                assert(mac_hosts(sighting, n) is Err);
            } else {
                assert(mac_hosts(sighting, n) is Ok);
                let hosts = mac_hosts(sighting, n)->Ok_0;
                assert forall|j: int| 0 <= j < n implies !#[trigger] is_doubtful(sighting, j) by {
                    if j < n - 1 {
                        assert(!is_doubtful(sighting, j));
                    }
                }
                if 0 <= i < n && sighting.kinds@[i] == BundleKind::Codex && bundle_of(
                    sighting.processes@[i].executable@,
                ) is Some {
                    let wanted = (
                        sighting.processes@[i].pid,
                        bundle_of(sighting.processes@[i].executable@)->0,
                    );
                    if i < n - 1 {
                        let at = choose|at: int| 0 <= at < before.len() && before[at] == wanted;
                        assert(hosts[at] == wanted);
                    } else {
                        assert(hosts[before.len() as int] == wanted);
                    }
                }
                if 0 <= k < hosts.len() {
                    if k < before.len() {
                        let j = choose|j: int|
                            0 <= j < n - 1 && sighting.kinds@[j] == BundleKind::Codex && before[k].0
                                == (#[trigger] sighting.processes@[j]).pid && bundle_of(
                                sighting.processes@[j].executable@,
                            ) == Some(before[k].1);
                        assert(hosts[k].0 == sighting.processes@[j].pid);
                    } else {
                        assert(hosts[k].0 == sighting.processes@[n - 1].pid);
                    }
                }
            }
        }
    }
}

/// The numbers that are ended at first are those of the programs that were found.
pub proof fn lemma_host_pids(hosts: Seq<(u32, Seq<char>)>)
    ensures
        host_pids(hosts).len() == hosts.len(),
        forall|k: int| 0 <= k < hosts.len() ==> host_pids(hosts)[k] == (#[trigger] hosts[k]).0,
        in_one_bundle(hosts) && hosts.len() > 0 ==> forall|j: int, k: int|
            0 <= j < hosts.len() && 0 <= k < hosts.len() ==> same_place(
                PathStyle::Unix,
                (#[trigger] hosts[j]).1,
                hosts[0].1,
            ) && same_place(PathStyle::Unix, (#[trigger] hosts[k]).1, hosts[0].1),
        !in_one_bundle(hosts) ==> exists|j: int|
            0 <= j < hosts.len() && !same_place(
                PathStyle::Unix,
                (#[trigger] hosts[j]).1,
                hosts[0].1,
            ),
{
}

/// A program of the application on Windows is told by its path alone, on a Mac by
/// the bundle that it stands in and by the identifier of that bundle; elsewhere
/// there is none.
pub proof fn lemma_host_programs(platform: HostPlatform, bundle: Seq<char>, sighting: Sighting, i: int)
    ensures
        platform == HostPlatform::Windows ==> is_host_program(platform, bundle, sighting, i)
            == is_windows_host(sighting.processes@[i].executable@, sighting.embedded@[i]),
        platform == HostPlatform::Mac && is_host_program(platform, bundle, sighting, i)
            ==> sighting.kinds@[i] == BundleKind::Codex,
        platform == HostPlatform::Mac && sighting.kinds@[i] == BundleKind::Codex ==> (
        is_host_program(platform, bundle, sighting, i) <==> (bundle_of(
            sighting.processes@[i].executable@,
        ) matches Some(b) && same_place(PathStyle::Unix, b, bundle))),
        platform == HostPlatform::Unsupported ==> !is_host_program(platform, bundle, sighting, i),
{
}

/// No program of the application that still runs is left out when it is told to
/// end, and then ended by force; nor is a service that it started.
pub proof fn lemma_all_verified_programs_are_signalled(
    host: RunningHost,
    stage: StopStage,
    sighting: Sighting,
    i: int,
)
    requires
        0 <= i < sighting.processes@.len(),
    ensures
        ({
            let pid = sighting.processes@[i].pid;
            let signals = stage_signals(host, stage, sighting);
            let own = is_host_program(host.platform, host.bundle@, sighting, i);
            &&& stage is Asked && own && host.pids@.contains(pid) ==> signals.contains(pid)
            &&& stage matches StopStage::Terminated(told) ==> own && told@.contains(pid)
                ==> signals.contains(pid)
            &&& stage is Killed ==> signals.len() == 0
            &&& stage is Services && host.descendants@.contains(pid) && is_service_of(
                host,
                sighting.processes@[i],
            ) ==> signals.contains(pid)
            &&& stage matches StopStage::ServicesTerminated(told) ==> told@.contains(pid) && (
            forall|j: int|
                0 <= j < sighting.processes@.len() && told@.contains(
                    (#[trigger] sighting.processes@[j]).pid,
                ) ==> is_bundled_service(host.bundle@, sighting.processes@[j].executable@))
                ==> signals.contains(pid)
        }),
{
    let pid = sighting.processes@[i].pid;
    let own = is_host_program(host.platform, host.bundle@, sighting, i);
    match stage {
        StopStage::Asked => {
            if own && host.pids@.contains(pid) {
                lemma_verified_all(host, host.pids@, sighting, i);
            }
        },
        StopStage::Terminated(told) => {
            if own && told@.contains(pid) {
                lemma_verified_all(host, told@, sighting, i);
            }
        },
        StopStage::Killed(_) => {},
        StopStage::Services => {
            let keep = |i: int| is_captured_service(host, sighting, i);
            lemma_captured_services(host, sighting, i);
            if keep(i) {
                lemma_picked_all(sighting.processes@, keep, i);
            }
        },
        StopStage::ServicesTerminated(told) => {
            if told@.contains(pid) && (forall|j: int|
                0 <= j < sighting.processes@.len() && told@.contains(
                    (#[trigger] sighting.processes@[j]).pid,
                ) ==> is_bundled_service(host.bundle@, sighting.processes@[j].executable@)) {
                lemma_all_unchanged(host, sighting, told@, 0);
                let keep = |i: int|
                    told@.contains(sighting.processes@[i].pid) && is_unchanged_service(
                        host,
                        sighting,
                        i,
                    );
                let n = sighting.processes@.len() as int;
                assert(sighting.processes@.take(n) =~= sighting.processes@);
                lemma_picked_all(sighting.processes@, keep, i);
            }
        },
    }
}

proof fn lemma_all_unchanged(host: RunningHost, sighting: Sighting, told: Seq<u32>, from: int)
    requires
        0 <= from <= sighting.processes@.len(),
        forall|j: int|
            0 <= j < sighting.processes@.len() && told.contains(
                (#[trigger] sighting.processes@[j]).pid,
            ) ==> is_bundled_service(host.bundle@, sighting.processes@[j].executable@),
    ensures
        unchanged_until(host, sighting, told, from) == sighting.processes@.len(),
    decreases sighting.processes@.len() - from,
{
    if from < sighting.processes@.len() {
        lemma_all_unchanged(host, sighting, told, from + 1);
    }
}

proof fn lemma_verified_all(host: RunningHost, expected: Seq<u32>, sighting: Sighting, i: int)
    requires
        0 <= i < sighting.processes@.len(),
        expected.contains(sighting.processes@[i].pid),
        is_host_program(host.platform, host.bundle@, sighting, i),
    ensures
        verified_pids(host.platform, host.bundle@, expected, sighting).contains(
            sighting.processes@[i].pid,
        ),
{
    let keep = |i: int|
        expected.contains(sighting.processes@[i].pid) && is_host_program(
            host.platform,
            host.bundle@,
            sighting,
            i,
        );
    lemma_picked_all(sighting.processes@, keep, i);
}

/// Whether a program is the service of the application: on a Mac a program named
/// `codex` in its bundle, on Windows one below the directory of one of the
/// application's programs that was called with `app-server`, in any case.
pub open spec fn is_service_of(host: RunningHost, process: ProcessInfo) -> bool {
    match host.platform {
        HostPlatform::Mac => lies_in(PathStyle::Unix, process.executable@, host.bundle@) && name_in(
            PathStyle::Unix,
            process.executable@,
        ) == Some("codex"@),
        HostPlatform::Windows => reads_somewhere(process.command_line@, "app-server"@) && exists|
            k: int,
        |
            0 <= k < host.executables@.len() && (parent_of(
                PathStyle::Windows,
                (#[trigger] host.executables@[k])@,
            ) matches Some(dir) && lies_in(PathStyle::Windows, process.executable@, dir)),
        HostPlatform::Unsupported => false,
    }
}

/// A service is captured exactly if the application started it and it is the
/// application's own.
pub proof fn lemma_captured_services(host: RunningHost, sighting: Sighting, i: int)
    ensures
        is_captured_service(host, sighting, i) <==> host.descendants@.contains(
            sighting.processes@[i].pid,
        ) && is_service_of(host, sighting.processes@[i]),
{
    let process = sighting.processes@[i];
    let line = process.command_line@;
    reveal_strlit("app-server");
    lemma_reads_somewhere(line, "app-server"@);
    lemma_plain_word(line, "app-server"@);
    if host.platform is Windows {
        if is_beside_host(host.executables@, process.executable@) {
            let k = choose|k: int|
                0 <= k < host.executables@.len() && stands_beside(
                    (#[trigger] host.executables@[k])@,
                    process.executable@,
                );
            assert(parent_of(PathStyle::Windows, host.executables@[k]@) is Some);
        }
        if is_service_of(host, process) {
            let k = choose|k: int|
                0 <= k < host.executables@.len() && (parent_of(
                    PathStyle::Windows,
                    (#[trigger] host.executables@[k])@,
                ) matches Some(dir) && lies_in(PathStyle::Windows, process.executable@, dir));
            assert(stands_beside(host.executables@[k]@, process.executable@));
        }
    }
}

/// A word without slashes stands in a text exactly if it stands there with its
/// separators alike.
proof fn lemma_plain_word(s: Seq<char>, word: Seq<char>)
    requires
        is_even(word),
        !word.contains('/'),
    ensures
        holds(even_path(s), word) <==> holds(lowered(s), word),
{
    let even = even_path(s);
    let low = lowered(s);
    let n = word.len();
    if holds(even, word) {
        let at = choose|at: int| stands_at(even, word, at);
        assert forall|i: int| 0 <= i < n implies low.subrange(at, at + n)[i] == word[i] by {
            assert(even.subrange(at, at + n)[i] == word[i]);
            assert(word.contains(word[i]));
            lemma_lower_char('/');
        }
        assert(low.subrange(at, at + n) =~= word);
        assert(stands_at(low, word, at));
    }
    if holds(low, word) {
        let at = choose|at: int| stands_at(low, word, at);
        assert forall|i: int| 0 <= i < n implies even.subrange(at, at + n)[i] == word[i] by {
            assert(low.subrange(at, at + n)[i] == word[i]);
            lemma_lower_char('\\');
            assert(word[i] != '\\');
        }
        assert(even.subrange(at, at + n) =~= word);
        assert(stands_at(even, word, at));
    }
}

/// A program hides its path exactly if it has one of the application's names, in
/// any case, and no path; a program is packaged exactly if its path leads through
/// the directory of packages.
pub proof fn lemma_hidden_and_packaged(process: ProcessInfo, path: Seq<char>)
    ensures
        hides_path(process) <==> (reads(process.name@, "chatgpt.exe"@) || reads(
            process.name@,
            "codex.exe"@,
        )) && process.executable@.len() == 0,
        is_packaged(path) <==> reads_somewhere(path, "/windowsapps/"@),
{
    reveal_strlit("chatgpt.exe");
    reveal_strlit("codex.exe");
    reveal_strlit("/windowsapps/");
    lemma_reads_somewhere(path, "/windowsapps/"@);
    lemma_plain_reading(process.name@, "chatgpt.exe"@);
    lemma_plain_reading(process.name@, "codex.exe"@);
}

proof fn lemma_plain_reading(s: Seq<char>, word: Seq<char>)
    requires
        is_even(word),
        !word.contains('/'),
    ensures
        reads(s, word) <==> lowered(s) == word,
{
    lemma_reads(s, word);
    let even = even_path(s);
    let low = lowered(s);
    if even == word {
        assert forall|i: int| 0 <= i < s.len() implies low[i] == word[i] by {
            assert(even[i] == word[i]);
            assert(word.contains(word[i]));
            lemma_lower_char('/');
        }
        assert(low =~= word);
    }
    if low == word {
        assert forall|i: int| 0 <= i < s.len() implies even[i] == word[i] by {
            assert(low[i] == word[i]);
            lemma_lower_char('\\');
            assert(word[i] != '\\');
        }
        assert(even =~= word);
    }
}

/// What a program started is known over any number of steps: a program descends
/// from the roots exactly if its parent is one of them or descends from them.
pub proof fn lemma_descendants(processes: Seq<ProcessInfo>, roots: Seq<u32>, i: int, pid: u32)
    ensures
        0 <= i < processes.len() && (roots.contains(processes[i].parent_pid) || is_descendant(
            processes,
            roots,
            processes[i].parent_pid,
        )) ==> is_descendant(processes, roots, processes[i].pid),
        is_descendant(processes, roots, pid) ==> exists|j: int|
            0 <= j < processes.len() && (#[trigger] processes[j]).pid == pid && (roots.contains(
                processes[j].parent_pid,
            ) || is_descendant(processes, roots, processes[j].parent_pid)),
{
    if 0 <= i < processes.len() && (roots.contains(processes[i].parent_pid) || is_descendant(
        processes,
        roots,
        processes[i].parent_pid,
    )) {
        lemma_child_descends(processes, roots, i);
    }
    if is_descendant(processes, roots, pid) {
        let depth = choose|depth: nat| descends(processes, roots, pid, depth);
        let j = choose|j: int|
            0 <= j < processes.len() && (#[trigger] processes[j]).pid == pid && (roots.contains(
                processes[j].parent_pid,
            ) || (depth > 0 && descends(
                processes,
                roots,
                processes[j].parent_pid,
                (depth - 1) as nat,
            )));
        assert(processes[j].pid == pid);
    }
}

/// What is started again is what ran: the bundle on a Mac, the first program that
/// was found on Windows, by way of the system where it came as a package.
pub proof fn lemma_the_same_application_is_started_again(host: RunningHost, next: StopNext)
    requires
        is_end(host, next),
    ensures
        next matches StopNext::Done(shutdown) ==> shutdown.was_running,
        host.platform == HostPlatform::Mac ==> (next matches StopNext::Done(shutdown)
            && shutdown.launch_target == Some(LaunchTarget::MacBundle(host.bundle))),
        host.platform == HostPlatform::Windows && reads_somewhere(
            host.executables@[0]@,
            "/windowsapps/"@,
        ) ==> next == StopNext::Resolve(host.executables@[0]),
        host.platform == HostPlatform::Windows && !reads_somewhere(
            host.executables@[0]@,
            "/windowsapps/"@,
        ) ==> (next matches StopNext::Done(shutdown) && shutdown.launch_target == Some(
            LaunchTarget::WindowsExecutable(host.executables@[0]),
        )),
{
    if host.platform is Windows {
        reveal_strlit("/windowsapps/");
        lemma_reads_somewhere(host.executables@[0]@, "/windowsapps/"@);
    }
}

/// A process list is read line by line: every line that names a program gives it,
/// in order, and other lines give nothing.
pub proof fn lemma_every_line_is_read(front: Seq<Seq<char>>, line: Seq<char>, rear: Seq<Seq<char>>)
    ensures
        processes_in(front.push(line) + rear) == processes_in(front) + (match process_in(line) {
            Some(process) => seq![process],
            None => Seq::empty(),
        }) + processes_in(rear),
    decreases rear.len(),
{
    let all = front.push(line) + rear;
    let middle = match process_in(line) {
        Some(process) => seq![process],
        None => Seq::empty(),
    };
    if rear.len() == 0 {
        assert(all.drop_last() =~= front);
        assert(all.last() == line);
    } else {
        lemma_every_line_is_read(front, line, rear.drop_last());
        assert(all.drop_last() =~= front.push(line) + rear.drop_last());
        assert(all.last() == rear.last());
    }
    assert(processes_in(all) =~= processes_in(front) + middle + processes_in(rear));
}

/// The system's list is read entry by entry: every entry with two numbers that fit
/// gives a program with the texts that it states, in order, and others give
/// nothing. A single entry may stand without a list.
pub proof fn lemma_every_entry_is_read(front: Seq<JsonModel>, entry: JsonModel, rear: Seq<JsonModel>)
    ensures
        entries_in(JsonModel::List(front.push(entry) + rear)) == front.push(entry) + rear,
        !(entry is List) ==> entries_in(entry) == seq![entry],
        entry_processes(front.push(entry) + rear) == entry_processes(front) + (match entry_process(
            entry,
        ) {
            Some(process) => seq![process],
            None => Seq::empty(),
        }) + entry_processes(rear),
        entry_process(entry) is Some <==> (entry.unsigned_field("ProcessId"@) matches Some(pid) && pid
            <= u32::MAX) && (entry.unsigned_field("ParentProcessId"@) matches Some(parent) && parent
            <= u32::MAX),
        entry_process(entry) matches Some(process) ==> {
            &&& entry.unsigned_field("ProcessId"@) == Some(process.pid as u64)
            &&& entry.unsigned_field("ParentProcessId"@) == Some(process.parent_pid as u64)
            &&& (match entry.text_field("Name"@) {
                Some(words) => process.name == words,
                None => process.name.len() == 0,
            })
            &&& (match entry.text_field("ExecutablePath"@) {
                Some(words) => process.executable == words,
                None => process.executable.len() == 0,
            })
            &&& (match entry.text_field("CommandLine"@) {
                Some(words) => process.command_line == words,
                None => process.command_line.len() == 0,
            })
        },
    decreases rear.len(),
{
    let all = front.push(entry) + rear;
    let middle = match entry_process(entry) {
        Some(process) => seq![process],
        None => Seq::empty(),
    };
    if rear.len() == 0 {
        assert(all.drop_last() =~= front);
        assert(all.last() == entry);
    } else {
        lemma_every_entry_is_read(front, entry, rear.drop_last());
        assert(all.drop_last() =~= front.push(entry) + rear.drop_last());
        assert(all.last() == rear.last());
    }
    assert(entry_processes(all) =~= entry_processes(front) + middle + entry_processes(rear));
}

/// Nothing is signalled but what was known before: a program only where it was found as
/// one of the application's or was told to end, a service only where the application
/// started it or it was told to end. There are at most as many signals as programs.
pub proof fn lemma_only_known_programs_are_signalled(
    host: RunningHost,
    stage: StopStage,
    sighting: Sighting,
    pid: u32,
)
    requires
        stage_signals(host, stage, sighting).contains(pid),
    ensures
        stage is Asked ==> host.pids@.contains(pid),
        stage matches StopStage::Terminated(told) ==> told@.contains(pid),
        !(stage is Killed),
        stage is Services ==> host.descendants@.contains(pid),
        stage matches StopStage::ServicesTerminated(told) ==> told@.contains(pid),
        stage_signals(host, stage, sighting).len() <= sighting.processes@.len(),
{
    match stage {
        StopStage::Asked => lemma_verified_known(host, host.pids@, sighting, pid),
        StopStage::Terminated(told) => lemma_verified_known(host, told@, sighting, pid),
        StopStage::Killed(_) => {},
        StopStage::Services => {
            let keep = |i: int| is_captured_service(host, sighting, i);
            lemma_picked(sighting.processes@, keep, pid);
            lemma_picked_at_most(sighting.processes@, keep);
            let i = choose|i: int|
                0 <= i < sighting.processes@.len() && keep(i) && (
                #[trigger] sighting.processes@[i]).pid == pid;
            lemma_captured_services(host, sighting, i);
        },
        StopStage::ServicesTerminated(told) => {
            let keep = |i: int|
                told@.contains(sighting.processes@[i].pid) && is_unchanged_service(
                    host,
                    sighting,
                    i,
                );
            let end = unchanged_until(host, sighting, told@, 0);
            lemma_unchanged_until(host, sighting, told@, 0);
            let front = sighting.processes@.take(end);
            lemma_picked(front, keep, pid);
            lemma_picked_at_most(front, keep);
            let i = choose|i: int|
                0 <= i < front.len() && keep(i) && (#[trigger] front[i]).pid == pid;
            assert(front[i] == sighting.processes@[i]);
        },
    }
}

proof fn lemma_verified_known(host: RunningHost, expected: Seq<u32>, sighting: Sighting, pid: u32)
    requires
        verified_pids(host.platform, host.bundle@, expected, sighting).contains(pid),
    ensures
        expected.contains(pid),
        verified_pids(host.platform, host.bundle@, expected, sighting).len()
            <= sighting.processes@.len(),
{
    let keep = |i: int|
        expected.contains(sighting.processes@[i].pid) && is_host_program(
            host.platform,
            host.bundle@,
            sighting,
            i,
        );
    lemma_picked(sighting.processes@, keep, pid);
    lemma_picked_at_most(sighting.processes@, keep);
}

proof fn lemma_picked_at_most(processes: Seq<ProcessInfo>, keep: spec_fn(int) -> bool)
    ensures
        picked(processes, keep).len() <= processes.len(),
    decreases processes.len(),
{
    if processes.len() > 0 {
        lemma_picked_at_most(processes.drop_last(), keep);
    }
}

proof fn lemma_unchanged_until(host: RunningHost, sighting: Sighting, told: Seq<u32>, from: int)
    requires
        0 <= from <= sighting.processes@.len(),
    ensures
        from <= unchanged_until(host, sighting, told, from) <= sighting.processes@.len(),
        unchanged_until(host, sighting, told, from) < sighting.processes@.len() ==> ({
            let process = sighting.processes@[unchanged_until(host, sighting, told, from)];
            told.contains(process.pid) && !is_bundled_service(host.bundle@, process.executable@)
        }),
        forall|j: int|
            from <= j < unchanged_until(host, sighting, told, from) && told.contains(
                (#[trigger] sighting.processes@[j]).pid,
            ) ==> is_bundled_service(host.bundle@, sighting.processes@[j].executable@),
    decreases sighting.processes@.len() - from,
{
    if from < sighting.processes@.len() {
        lemma_unchanged_until(host, sighting, told, from + 1);
    }
}

/// The search for a service that is no longer what it was finds the first such
/// program, exactly where there is one among those that were told to end.
pub proof fn lemma_changed_service_is_noticed(host: RunningHost, sighting: Sighting, told: Seq<u32>)
    ensures
        ({
            let at = unchanged_until(host, sighting, told, 0);
            &&& 0 <= at <= sighting.processes@.len()
            &&& at == sighting.processes@.len() <==> (forall|j: int|
                0 <= j < sighting.processes@.len() && told.contains(
                    (#[trigger] sighting.processes@[j]).pid,
                ) ==> is_bundled_service(host.bundle@, sighting.processes@[j].executable@))
            &&& at < sighting.processes@.len() ==> told.contains(sighting.processes@[at].pid)
                && !is_bundled_service(host.bundle@, sighting.processes@[at].executable@)
            &&& forall|j: int|
                0 <= j < at && told.contains((#[trigger] sighting.processes@[j]).pid)
                    ==> is_bundled_service(host.bundle@, sighting.processes@[j].executable@)
        }),
{
    lemma_unchanged_until(host, sighting, told, 0);
}

} // verus!
