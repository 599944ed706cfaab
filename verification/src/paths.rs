//! Paths as text, read by the rules of the system that they belong to.

use vstd::prelude::*;

use crate::text::{
    begins, ends, ends_with_text, from_chars, holds, lemma_split_apart, lemma_split_whole,
    lower_char, push_char, replace_char, replaced, same_text, split, split_text, stands_at, texts,
    to_chars, to_lower_char, Separator,
};

verus! {

/// The system that a path belongs to.
#[derive(Debug, Clone, Copy, PartialEq, Eq, Structural)]
pub enum PathStyle {
    Unix,
    Windows,
}

/// What stands before the root of a path: a drive, a share or a device of a
/// Windows system, each also in the verbatim form after `\\\\?\\`.
#[verifier::ext_equal]
pub enum PrefixModel {
    Absent,
    Drive(char),
    Share(Seq<char>, Seq<char>),
    Device(Seq<char>),
    VerbatimDrive(char),
    VerbatimShare(Seq<char>, Seq<char>),
    Verbatim(Seq<char>),
}

impl PrefixModel {
    /// Whether what follows is taken as it is written: a slash divides nothing
    /// and a dot is a part.
    pub open spec fn is_verbatim(self) -> bool {
        self is VerbatimDrive || self is VerbatimShare || self is Verbatim
    }

    /// Whether a root follows although none is written.
    pub open spec fn has_root(self) -> bool {
        !(self is Absent) && !(self is Drive)
    }
}

/// What stands before the root of a path.
#[derive(Debug, PartialEq, Eq)]
pub enum PathPrefix {
    Absent,
    Drive(char),
    Share(String, String),
    Device(String),
    VerbatimDrive(char),
    VerbatimShare(String, String),
    Verbatim(String),
}

impl PathPrefix {
    /// What the prefix says.
    pub open spec fn view(self) -> PrefixModel {
        match self {
            PathPrefix::Absent => PrefixModel::Absent,
            PathPrefix::Drive(c) => PrefixModel::Drive(c),
            PathPrefix::Share(a, b) => PrefixModel::Share(a@, b@),
            PathPrefix::Device(a) => PrefixModel::Device(a@),
            PathPrefix::VerbatimDrive(c) => PrefixModel::VerbatimDrive(c),
            PathPrefix::VerbatimShare(a, b) => PrefixModel::VerbatimShare(a@, b@),
            PathPrefix::Verbatim(a) => PrefixModel::Verbatim(a@),
        }
    }

    /// Whether what follows is taken as it is written.
    pub fn is_verbatim(&self) -> (r: bool)
        ensures
            r == self@.is_verbatim(),
    {
        match self {
            PathPrefix::VerbatimDrive(_) => true,
            PathPrefix::VerbatimShare(_, _) => true,
            PathPrefix::Verbatim(_) => true,
            _ => false,
        }
    }

    /// Whether a root follows although none is written.
    pub fn has_root(&self) -> (r: bool)
        ensures
            r == self@.has_root(),
    {
        match self {
            PathPrefix::Absent => false,
            PathPrefix::Drive(_) => false,
            _ => true,
        }
    }

    /// Whether two prefixes say the same.
    pub fn same(&self, other: &PathPrefix) -> (r: bool)
        ensures
            r == (self@ == other@),
    {
        match (self, other) {
            (PathPrefix::Absent, PathPrefix::Absent) => true,
            (PathPrefix::Drive(a), PathPrefix::Drive(b)) => *a == *b,
            (PathPrefix::Share(a, b), PathPrefix::Share(c, d)) => same_text(
                a.as_str(),
                c.as_str(),
            ) && same_text(b.as_str(), d.as_str()),
            (PathPrefix::Device(a), PathPrefix::Device(b)) => same_text(a.as_str(), b.as_str()),
            (PathPrefix::VerbatimDrive(a), PathPrefix::VerbatimDrive(b)) => *a == *b,
            (PathPrefix::VerbatimShare(a, b), PathPrefix::VerbatimShare(c, d)) => same_text(
                a.as_str(),
                c.as_str(),
            ) && same_text(b.as_str(), d.as_str()),
            (PathPrefix::Verbatim(a), PathPrefix::Verbatim(b)) => same_text(
                a.as_str(),
                b.as_str(),
            ),
            _ => false,
        }
    }
}

/// What a path says: its prefix, whether it starts at a root, and its parts.
#[verifier::ext_equal]
pub struct PathModel {
    pub prefix: PrefixModel,
    pub rooted: bool,
    pub parts: Seq<Seq<char>>,
}

/// A path taken apart.
#[derive(Debug, PartialEq, Eq)]
pub struct PathParts {
    pub prefix: PathPrefix,
    pub rooted: bool,
    pub parts: Vec<String>,
}

impl PathParts {
    /// What the path says.
    pub open spec fn view(self) -> PathModel {
        PathModel { prefix: self.prefix@, rooted: self.rooted, parts: texts(self.parts@) }
    }
}

/// Whether a character separates the parts of a path; after a verbatim prefix
/// only the backslash does.
pub open spec fn separates(style: PathStyle, verbatim: bool, c: char) -> bool {
    match style {
        PathStyle::Unix => c == '/',
        PathStyle::Windows => c == '\\' || (!verbatim && c == '/'),
    }
}

/// Whether a character is an ASCII letter.
pub open spec fn is_letter(c: char) -> bool {
    'a' <= lower_char(c) <= 'z'
}

/// Whether a path begins with a drive.
pub open spec fn has_drive(s: Seq<char>) -> bool {
    s.len() >= 2 && is_letter(s[0]) && s[1] == ':'
}

/// The place of the first separator from a place on, or the end of the text.
pub open spec fn piece_end(s: Seq<char>, from: int, verbatim: bool) -> int
    decreases s.len() - from,
{
    if from < 0 || from >= s.len() || separates(PathStyle::Windows, verbatim, s[from]) {
        from
    } else {
        piece_end(s, from + 1, verbatim)
    }
}

/// Whether a path begins with the mark of the verbatim form, and a name after it.
pub open spec fn is_marked_verbatim(s: Seq<char>) -> bool {
    s.len() > 4 && s[0] == '\\' && s[1] == '\\' && s[2] == '?' && s[3] == '\\' && piece_end(
        s,
        4,
        true,
    ) > 4
}

/// Whether the verbatim form names a share: a server at least.
pub open spec fn is_marked_share(s: Seq<char>) -> bool {
    s.len() > 8 && s[4] == 'U' && s[5] == 'N' && s[6] == 'C' && s[7] == '\\' && piece_end(
        s,
        8,
        true,
    ) > 8
}

/// The prefix of a path in the verbatim form, and where it ends.
pub open spec fn verbatim_prefix(s: Seq<char>) -> (PrefixModel, int) {
    let end = piece_end(s, 4, true);
    if is_marked_share(s) {
        let one = piece_end(s, 8, true);
        let two = piece_end(s, one + 1, true);
        if one < s.len() && two > one + 1 {
            (PrefixModel::VerbatimShare(s.subrange(8, one), s.subrange(one + 1, two)), two)
        } else {
            (PrefixModel::VerbatimShare(s.subrange(8, one), Seq::empty()), one)
        }
    } else if end == 6 && is_letter(s[4]) && s[5] == ':' {
        (PrefixModel::VerbatimDrive(lower_char(s[4])), 6)
    } else {
        (PrefixModel::Verbatim(s.subrange(4, end)), end)
    }
}

/// Whether a path begins with the mark of a device, and a name after it.
pub open spec fn is_marked_device(s: Seq<char>) -> bool {
    s.len() > 4 && s[2] == '.' && separates(PathStyle::Windows, false, s[3]) && piece_end(
        s,
        4,
        false,
    ) > 4
}

/// The prefix of a path that begins with two separators, and where it ends.
pub open spec fn doubled_prefix(s: Seq<char>) -> (PrefixModel, int) {
    if is_marked_verbatim(s) {
        verbatim_prefix(s)
    } else if is_marked_device(s) {
        (PrefixModel::Device(s.subrange(4, piece_end(s, 4, false))), piece_end(s, 4, false))
    } else {
        let one = piece_end(s, 2, false);
        let two = piece_end(s, one + 1, false);
        if one > 2 && one < s.len() && two > one + 1 {
            (PrefixModel::Share(s.subrange(2, one), s.subrange(one + 1, two)), two)
        } else {
            (PrefixModel::Absent, 0)
        }
    }
}

/// The prefix of a path, and where it ends.
pub open spec fn prefix_in(style: PathStyle, s: Seq<char>) -> (PrefixModel, int) {
    if style is Unix {
        (PrefixModel::Absent, 0)
    } else if has_drive(s) {
        (PrefixModel::Drive(lower_char(s[0])), 2)
    } else if s.len() >= 2 && separates(style, false, s[0]) && separates(style, false, s[1]) {
        doubled_prefix(s)
    } else {
        (PrefixModel::Absent, 0)
    }
}

/// The separator that a path is divided by once all are alike.
pub open spec fn divider(verbatim: bool) -> char {
    if verbatim {
        '\\'
    } else {
        '/'
    }
}

/// A path with all its separators alike.
pub open spec fn unified(style: PathStyle, verbatim: bool, s: Seq<char>) -> Seq<char> {
    if style is Windows && !verbatim {
        replaced(s, '\\', '/')
    } else {
        s
    }
}

/// The pieces that count: not empty, and a dot only after a verbatim prefix or
/// at the very beginning.
pub open spec fn kept(pieces: Seq<Seq<char>>, verbatim: bool, leading_dot: bool) -> Seq<Seq<char>>
    decreases pieces.len(),
{
    if pieces.len() == 0 {
        Seq::empty()
    } else {
        let before = kept(pieces.drop_last(), verbatim, leading_dot);
        let piece = pieces.last();
        if piece.len() > 0 && (piece != "."@ || verbatim || (leading_dot && pieces.len() == 1)) {
            before.push(piece)
        } else {
            before
        }
    }
}

/// What a path says after its prefix.
pub open spec fn body_model(style: PathStyle, prefix: PrefixModel, body: Seq<char>) -> PathModel {
    let verbatim = prefix.is_verbatim();
    let rooted = prefix.has_root() || (body.len() > 0 && separates(style, verbatim, body[0]));
    PathModel {
        prefix,
        rooted,
        parts: kept(
            split(unified(style, verbatim, body), Separator::Only(divider(verbatim))),
            verbatim,
            !rooted && prefix is Absent,
        ),
    }
}

/// What a path says.
pub open spec fn path_model(style: PathStyle, s: Seq<char>) -> PathModel {
    let (prefix, end) = prefix_in(style, s);
    body_model(style, prefix, s.skip(end))
}

/// Whether two paths name the same place by their parts alone.
pub open spec fn same_place(style: PathStyle, a: Seq<char>, b: Seq<char>) -> bool {
    path_model(style, a) == path_model(style, b)
}

fn char_separates(style: PathStyle, verbatim: bool, c: char) -> (r: bool)
    ensures
        r == separates(style, verbatim, c),
{
    match style {
        PathStyle::Unix => c == '/',
        PathStyle::Windows => c == '\\' || (!verbatim && c == '/'),
    }
}

fn char_is_letter(c: char) -> (r: bool)
    ensures
        r == is_letter(c),
{
    let letter = to_lower_char(c);
    'a' <= letter && letter <= 'z'
}

fn find_piece_end(chars: &Vec<char>, from: usize, verbatim: bool) -> (r: usize)
    requires
        from <= chars@.len(),
    ensures
        r == piece_end(chars@, from as int, verbatim),
        from <= r <= chars@.len(),
{
    let mut at: usize = from;
    while at < chars.len() && !char_separates(PathStyle::Windows, verbatim, chars[at])
        invariant
            from <= at <= chars@.len(),
            piece_end(chars@, from as int, verbatim) == piece_end(chars@, at as int, verbatim),
        decreases chars@.len() - at,
    {
        at = at + 1;
    }
    at
}

fn find_verbatim_prefix(chars: &Vec<char>) -> (r: (PathPrefix, usize))
    requires
        is_marked_verbatim(chars@),
    ensures
        (r.0@, r.1 as int) == verbatim_prefix(chars@),
        r.1 <= chars@.len(),
{
    let n: usize = chars.len();
    if n > 8 && chars[4] == 'U' && chars[5] == 'N' && chars[6] == 'C' && chars[7] == '\\' {
        let one: usize = find_piece_end(chars, 8, true);
        if one > 8 {
            if one < n {
                let two: usize = find_piece_end(chars, one + 1, true);
                if two > one + 1 {
                    let server = from_chars(chars, 8, one);
                    let share = from_chars(chars, one + 1, two);
                    return (PathPrefix::VerbatimShare(server, share), two);
                }
            }
            return (PathPrefix::VerbatimShare(from_chars(chars, 8, one), String::new()), one);
        }
    }
    let end: usize = find_piece_end(chars, 4, true);
    if end == 6 && char_is_letter(chars[4]) && chars[5] == ':' {
        (PathPrefix::VerbatimDrive(to_lower_char(chars[4])), 6)
    } else {
        (PathPrefix::Verbatim(from_chars(chars, 4, end)), end)
    }
}

fn find_doubled_prefix(chars: &Vec<char>) -> (r: (PathPrefix, usize))
    requires
        chars@.len() >= 2,
    ensures
        (r.0@, r.1 as int) == doubled_prefix(chars@),
        r.1 <= chars@.len(),
{
    let n: usize = chars.len();
    if n > 4 && chars[0] == '\\' && chars[1] == '\\' && chars[2] == '?' && chars[3] == '\\'
        && find_piece_end(chars, 4, true) > 4 {
        return find_verbatim_prefix(chars);
    }
    if n > 4 && chars[2] == '.' && char_separates(PathStyle::Windows, false, chars[3]) {
        let end: usize = find_piece_end(chars, 4, false);
        if end > 4 {
            return (PathPrefix::Device(from_chars(chars, 4, end)), end);
        }
    }
    let one: usize = find_piece_end(chars, 2, false);
    if one > 2 && one < n {
        let two: usize = find_piece_end(chars, one + 1, false);
        if two > one + 1 {
            let server = from_chars(chars, 2, one);
            let share = from_chars(chars, one + 1, two);
            return (PathPrefix::Share(server, share), two);
        }
    }
    (PathPrefix::Absent, 0)
}

fn find_prefix(style: PathStyle, chars: &Vec<char>) -> (r: (PathPrefix, usize))
    ensures
        (r.0@, r.1 as int) == prefix_in(style, chars@),
        r.1 <= chars@.len(),
{
    match style {
        PathStyle::Unix => (PathPrefix::Absent, 0),
        PathStyle::Windows => {
            if chars.len() < 2 {
                return (PathPrefix::Absent, 0);
            }
            if char_is_letter(chars[0]) && chars[1] == ':' {
                return (PathPrefix::Drive(to_lower_char(chars[0])), 2);
            }
            if char_separates(style, false, chars[0]) && char_separates(style, false, chars[1]) {
                return find_doubled_prefix(chars);
            }
            (PathPrefix::Absent, 0)
        },
    }
}

fn keep_pieces(pieces: Vec<String>, verbatim: bool, leading_dot: bool) -> (r: Vec<String>)
    ensures
        texts(r@) == kept(texts(pieces@), verbatim, leading_dot),
{
    let ghost all = texts(pieces@);
    let mut out: Vec<String> = Vec::new();
    let mut i: usize = 0;
    assert(all.take(0) =~= Seq::empty());
    assert(texts(out@) =~= Seq::empty());
    while i < pieces.len()
        invariant
            all == texts(pieces@),
            i <= pieces@.len(),
            texts(out@) == kept(all.take(i as int), verbatim, leading_dot),
        decreases pieces@.len() - i,
    {
        assert(all.take(i + 1).drop_last() =~= all.take(i as int));
        assert(all.take(i + 1).last() == all[i as int]);
        let piece = &pieces[i];
        if !piece.as_str().is_empty() && (!same_text(piece.as_str(), ".") || verbatim || (
        leading_dot && i == 0)) {
            let ghost before = texts(out@);
            out.push(piece.clone());
            assert(texts(out@) =~= before.push(piece@));
        }
        i = i + 1;
    }
    assert(all.take(i as int) =~= all);
    out
}

/// Takes a path apart.
pub fn take_apart(style: PathStyle, path: &str) -> (r: PathParts)
    ensures
        r@ == path_model(style, path@),
{
    let chars = to_chars(path);
    let (prefix, from) = find_prefix(style, &chars);
    let verbatim = prefix.is_verbatim();
    let body = from_chars(&chars, from, chars.len());
    assert(body@ =~= path@.skip(from as int));
    let rooted = prefix.has_root() || (from < chars.len() && char_separates(
        style,
        verbatim,
        chars[from],
    ));
    let absent = match prefix {
        PathPrefix::Absent => true,
        _ => false,
    };
    let even = match style {
        PathStyle::Unix => body,
        PathStyle::Windows => if verbatim {
            body
        } else {
            replace_char(body.as_str(), '\\', '/')
        },
    };
    let cut = if verbatim {
        '\\'
    } else {
        '/'
    };
    let pieces = split_text(even.as_str(), Separator::Only(cut));
    let parts = keep_pieces(pieces, verbatim, !rooted && absent);
    PathParts { prefix, rooted, parts }
}

fn same_texts(a: &Vec<String>, b: &Vec<String>, n: usize) -> (r: bool)
    requires
        n <= a@.len(),
        n <= b@.len(),
    ensures
        r == (texts(a@).take(n as int) == texts(b@).take(n as int)),
{
    let mut i: usize = 0;
    while i < n
        invariant
            n <= a@.len(),
            n <= b@.len(),
            i <= n,
            forall|j: int| 0 <= j < i ==> texts(a@)[j] == texts(b@)[j],
        decreases n - i,
    {
        if !same_text(a[i].as_str(), b[i].as_str()) {
            assert(texts(a@).take(n as int)[i as int] != texts(b@).take(n as int)[i as int]);
            return false;
        }
        i = i + 1;
    }
    assert(texts(a@).take(n as int) =~= texts(b@).take(n as int));
    true
}

/// Whether two paths name the same place by their parts alone.
pub fn same_path(style: PathStyle, a: &str, b: &str) -> (r: bool)
    ensures
        r == same_place(style, a@, b@),
{
    let left = take_apart(style, a);
    let right = take_apart(style, b);
    let n: usize = left.parts.len();
    let r = left.prefix.same(&right.prefix) && left.rooted == right.rooted && n == right.parts.len()
        && same_texts(&left.parts, &right.parts, n);
    proof {
        assert(texts(left.parts@).take(left.parts@.len() as int) =~= texts(left.parts@));
        assert(texts(right.parts@).take(right.parts@.len() as int) =~= texts(right.parts@));
        assert(left@.parts.len() == left.parts@.len());
        assert(right@.parts.len() == right.parts@.len());
    }
    r
}

/// Whether a path lies at or below another.
pub open spec fn lies_in(style: PathStyle, path: Seq<char>, dir: Seq<char>) -> bool {
    let inner = path_model(style, path);
    let outer = path_model(style, dir);
    &&& inner.prefix == outer.prefix
    &&& inner.rooted == outer.rooted
    &&& outer.parts.len() <= inner.parts.len()
    &&& inner.parts.take(outer.parts.len() as int) == outer.parts
}

/// Whether a path lies at or below another.
pub fn path_lies_in(style: PathStyle, path: &str, dir: &str) -> (r: bool)
    ensures
        r == lies_in(style, path@, dir@),
{
    let inner = take_apart(style, path);
    let outer = take_apart(style, dir);
    let n: usize = outer.parts.len();
    assert(texts(outer.parts@).take(n as int) =~= texts(outer.parts@));
    inner.prefix.same(&outer.prefix) && inner.rooted == outer.rooted && n <= inner.parts.len()
        && same_texts(&inner.parts, &outer.parts, n)
}

/// The last part of a path, where it is a name.
pub open spec fn name_in(style: PathStyle, s: Seq<char>) -> Option<Seq<char>> {
    let parts = path_model(style, s).parts;
    if parts.len() > 0 && parts.last() != ".."@ && parts.last() != "."@ {
        Some(parts.last())
    } else {
        None
    }
}

/// The last part of a path, where it is a name.
pub fn file_name(style: PathStyle, path: &str) -> (r: Option<String>)
    ensures
        match r {
            Some(s) => name_in(style, path@) == Some(s@),
            None => name_in(style, path@) is None,
        },
{
    let parts = take_apart(style, path).parts;
    let n: usize = parts.len();
    if n == 0 {
        return None;
    }
    assert(texts(parts@).last() == parts@[n - 1]@);
    if same_text(parts[n - 1].as_str(), "..") || same_text(parts[n - 1].as_str(), ".") {
        None
    } else {
        Some(parts[n - 1].clone())
    }
}

/// Whether a path has the file name `name`.
pub fn has_file_name(style: PathStyle, path: &str, name: &str) -> (r: bool)
    ensures
        r == (name_in(style, path@) == Some(name@)),
{
    match file_name(style, path) {
        Some(found) => same_text(found.as_str(), name),
        None => false,
    }
}

/// Whether a path says where it is without help: on Windows it needs a prefix
/// for that too.
pub open spec fn is_absolute_path(style: PathStyle, s: Seq<char>) -> bool {
    path_model(style, s).rooted && (style is Unix || !(path_model(style, s).prefix is Absent))
}

/// Whether a path says where it is without help.
pub fn is_absolute(style: PathStyle, path: &str) -> (r: bool)
    ensures
        r == is_absolute_path(style, path@),
{
    let apart = take_apart(style, path);
    match style {
        PathStyle::Unix => apart.rooted,
        PathStyle::Windows => match apart.prefix {
            PathPrefix::Absent => false,
            _ => apart.rooted,
        },
    }
}

/// Whether a name can follow a directory as it is written.
pub open spec fn is_open_end(style: PathStyle, dir: Seq<char>) -> bool {
    let (prefix, end) = prefix_in(style, dir);
    dir.len() == 0 || separates(style, prefix.is_verbatim(), dir.last()) || (prefix is Drive
        && dir.len() == 2)
}

/// The separator that is written before a name.
pub open spec fn written_separator(style: PathStyle) -> char {
    match style {
        PathStyle::Unix => '/',
        PathStyle::Windows => '\\',
    }
}

/// A directory up to where a name is written.
pub open spec fn opened(style: PathStyle, dir: Seq<char>) -> Seq<char> {
    if is_open_end(style, dir) {
        dir
    } else {
        dir.push(written_separator(style))
    }
}

/// A place below a directory.
pub open spec fn below(style: PathStyle, dir: Seq<char>, name: Seq<char>) -> Seq<char> {
    opened(style, dir) + name
}

/// A place below a directory.
pub fn join(style: PathStyle, dir: &str, name: &str) -> (r: String)
    ensures
        r@ == below(style, dir@, name@),
{
    let chars = to_chars(dir);
    let n: usize = chars.len();
    let (prefix, _) = find_prefix(style, &chars);
    let drive = match prefix {
        PathPrefix::Drive(_) => true,
        _ => false,
    };
    let mut out = dir.to_owned();
    if !(n == 0 || char_separates(style, prefix.is_verbatim(), chars[n - 1]) || (n == 2 && drive)) {
        match style {
            PathStyle::Unix => push_char(&mut out, '/'),
            PathStyle::Windows => push_char(&mut out, '\\'),
        }
    }
    out.append(name);
    out
}

/// Whether a text can be the name of one part of a path, on every system.
pub open spec fn is_plain_name(s: Seq<char>) -> bool {
    &&& s.len() > 0
    &&& s != "."@
    &&& forall|i: int|
        0 <= i < s.len() ==> (#[trigger] s[i]) != '/' && s[i] != '\\' && s[i] != ':'
}

proof fn lemma_kept_push(
    pieces: Seq<Seq<char>>,
    name: Seq<char>,
    verbatim: bool,
    leading_dot: bool,
)
    requires
        name.len() > 0,
        name != "."@,
    ensures
        kept(pieces.push(name), verbatim, leading_dot) == kept(
            pieces,
            verbatim,
            leading_dot,
        ).push(name),
{
    assert(pieces.push(name).drop_last() =~= pieces);
}

proof fn lemma_piece_end(s: Seq<char>, from: int, verbatim: bool)
    requires
        0 <= from,
    ensures
        from <= piece_end(s, from, verbatim),
        from <= s.len() ==> piece_end(s, from, verbatim) <= s.len(),
        from < s.len() && !separates(PathStyle::Windows, verbatim, s[from]) ==> from < piece_end(
            s,
            from,
            verbatim,
        ),
        forall|i: int|
            from <= i < piece_end(s, from, verbatim) && i < s.len() ==> !separates(
                PathStyle::Windows,
                verbatim,
                #[trigger] s[i],
            ),
        piece_end(s, from, verbatim) < s.len() ==> separates(
            PathStyle::Windows,
            verbatim,
            s[piece_end(s, from, verbatim)],
        ),
    decreases s.len() - from,
{
    if from < s.len() && !separates(PathStyle::Windows, verbatim, s[from]) {
        lemma_piece_end(s, from + 1, verbatim);
    }
}

/// A separator at the end moves no piece.
proof fn lemma_piece_end_closed(s: Seq<char>, from: int, verbatim: bool)
    requires
        0 <= from <= s.len(),
    ensures
        piece_end(s.push('\\'), from, verbatim) == piece_end(s, from, verbatim),
    decreases s.len() - from,
{
    let t = s.push('\\');
    if from < s.len() {
        assert(t[from] == s[from]);
        if !separates(PathStyle::Windows, verbatim, s[from]) {
            lemma_piece_end_closed(s, from + 1, verbatim);
        }
    } else {
        assert(t[from] == '\\');
    }
}

proof fn lemma_closed_prefix(s: Seq<char>)
    requires
        s.len() > 0,
        !is_open_end(PathStyle::Windows, s),
    ensures
        prefix_in(PathStyle::Windows, s.push('\\')) == prefix_in(PathStyle::Windows, s),
        0 <= prefix_in(PathStyle::Windows, s).1 <= s.len(),
{
    let style = PathStyle::Windows;
    let t = s.push('\\');
    let n = s.len() as int;
    assert forall|i: int| 0 <= i < n implies t[i] == s[i] by {}
    if s.len() >= 2 && !has_drive(s) && separates(style, false, s[0]) && separates(
        style,
        false,
        s[1],
    ) {
        lemma_piece_end(s, 2, false);
        lemma_piece_end_closed(s, 2, false);
        let one = piece_end(s, 2, false);
        if one < n {
            lemma_piece_end(s, one + 1, false);
            lemma_piece_end_closed(s, one + 1, false);
            assert(t.subrange(one + 1, piece_end(s, one + 1, false)) =~= s.subrange(
                one + 1,
                piece_end(s, one + 1, false),
            ));
        } else {
            assert(piece_end(t, one + 1, false) == one + 1);
        }
        assert(t.subrange(2, one) =~= s.subrange(2, one));
        if n >= 4 {
            lemma_piece_end(s, 4, true);
            lemma_piece_end_closed(s, 4, true);
            lemma_piece_end(s, 4, false);
            lemma_piece_end_closed(s, 4, false);
            assert(t.subrange(4, piece_end(s, 4, true)) =~= s.subrange(4, piece_end(s, 4, true)));
            assert(t.subrange(4, piece_end(s, 4, false)) =~= s.subrange(
                4,
                piece_end(s, 4, false),
            ));
        } else {
            assert(t.len() <= 4);
        }
        if n >= 8 {
            lemma_piece_end(s, 8, true);
            lemma_piece_end_closed(s, 8, true);
            let three = piece_end(s, 8, true);
            assert(t.subrange(8, three) =~= s.subrange(8, three));
            if three < n {
                lemma_piece_end(s, three + 1, true);
                lemma_piece_end_closed(s, three + 1, true);
                assert(t.subrange(three + 1, piece_end(s, three + 1, true)) =~= s.subrange(
                    three + 1,
                    piece_end(s, three + 1, true),
                ));
            } else {
                assert(piece_end(t, three + 1, true) == three + 1);
            }
        } else {
            assert(t.len() <= 8);
        }
    } else if n == 1 {
        assert(t[1] == '\\');
    }
}

/// A separator that is written after a directory changes nothing of what its
/// path says.
pub proof fn lemma_closed_path(style: PathStyle, dir: Seq<char>)
    requires
        dir.len() > 0,
        !is_open_end(style, dir),
    ensures
        same_place(style, dir.push(written_separator(style)), dir),
{
    let c = written_separator(style);
    let t = dir.push(c);
    let (prefix, end) = prefix_in(style, dir);
    if style is Windows {
        lemma_closed_prefix(dir);
    }
    let verbatim = prefix.is_verbatim();
    let body = dir.skip(end);
    assert(t.skip(end) =~= body.push(c));
    let even = unified(style, verbatim, body);
    let mark = divider(verbatim);
    assert(unified(style, verbatim, body.push(c)) =~= even.push(mark));
    lemma_split_apart(even, Seq::empty(), mark, Separator::Only(mark));
    assert(even.push(mark) + Seq::<char>::empty() =~= even.push(mark));
    let pieces = split(even, Separator::Only(mark));
    assert(split(Seq::<char>::empty(), Separator::Only(mark)) =~= seq![Seq::<char>::empty()]);
    assert(split(even.push(mark), Separator::Only(mark)) =~= pieces.push(Seq::empty()));
    assert(pieces.push(Seq::<char>::empty()).drop_last() =~= pieces);
    if body.len() == 0 {
        assert(prefix.has_root());
    } else {
        assert(body.push(c)[0] == body[0]);
    }
}

/// Where a name is written below two directories and the texts agree, the
/// directories are the same place.
pub proof fn lemma_below_keeps_places_apart(
    style: PathStyle,
    a: Seq<char>,
    b: Seq<char>,
    name: Seq<char>,
)
    requires
        below(style, a, name) == below(style, b, name),
    ensures
        same_place(style, a, b),
{
    let left = opened(style, a);
    let right = opened(style, b);
    let whole = below(style, a, name);
    assert(whole.len() == left.len() + name.len());
    assert(below(style, b, name).len() == right.len() + name.len());
    assert(left =~= whole.take(left.len() as int));
    assert(right =~= whole.take(right.len() as int));
    if is_open_end(style, a) && !is_open_end(style, b) {
        lemma_closed_path(style, b);
    } else if !is_open_end(style, a) && is_open_end(style, b) {
        lemma_closed_path(style, a);
    } else if !is_open_end(style, a) {
        assert(a =~= left.drop_last());
        assert(b =~= right.drop_last());
    }
}

/// The last word of what a path says: of its parts, or of its prefix where it
/// has none.
pub open spec fn last_word(model: PathModel) -> Seq<char> {
    if model.parts.len() > 0 {
        model.parts.last()
    } else {
        match model.prefix {
            PrefixModel::Share(_, share) => share,
            PrefixModel::Device(name) => name,
            PrefixModel::VerbatimShare(server, share) => if share.len() > 0 {
                share
            } else {
                server
            },
            PrefixModel::Verbatim(name) => name,
            _ => Seq::empty(),
        }
    }
}

/// A piece of a path that begins before a name which is written at its end ends
/// before it too; one that begins there is the name.
proof fn lemma_piece_end_before(s: Seq<char>, cut: int, from: int, verbatim: bool)
    requires
        0 <= from <= cut < s.len(),
        from < cut ==> separates(PathStyle::Windows, verbatim, s[cut - 1]),
        forall|i: int|
            cut <= i < s.len() ==> !separates(PathStyle::Windows, verbatim, #[trigger] s[i]),
    ensures
        from < cut ==> piece_end(s, from, verbatim) < cut,
        from == cut ==> piece_end(s, from, verbatim) == s.len(),
{
    lemma_piece_end(s, from, verbatim);
    if from < cut && piece_end(s, from, verbatim) >= cut {
        assert(!separates(PathStyle::Windows, verbatim, s[cut - 1]));
    }
    if from == cut && piece_end(s, from, verbatim) < s.len() {
        assert(separates(
            PathStyle::Windows,
            verbatim,
            s[piece_end(s, from, verbatim)],
        ));
    }
}

proof fn lemma_prefix_before(whole: Seq<char>, cut: int, name: Seq<char>)
    requires
        is_plain_name(name),
        0 <= cut,
        whole.len() == cut + name.len(),
        whole.skip(cut) == name,
        cut == 0 || whole[cut - 1] == '\\' || whole[cut - 1] == '/' || (cut == 2 && has_drive(
            whole,
        )),
        is_marked_verbatim(whole) ==> whole[cut - 1] == '\\',
    ensures
        ({
            let (prefix, end) = prefix_in(PathStyle::Windows, whole);
            &&& 0 <= end <= whole.len()
            &&& end <= cut || (end == whole.len() && last_word(
                PathModel { prefix, rooted: true, parts: Seq::empty() },
            ) == name)
        }),
{
    let style = PathStyle::Windows;
    let n = whole.len() as int;
    assert forall|i: int| cut <= i < n implies whole[i] != '\\' && whole[i] != '/' && whole[i]
        != ':' by {
        assert(name[i - cut] == whole[i]);
    }
    if n >= 2 && !has_drive(whole) && separates(style, false, whole[0]) && separates(
        style,
        false,
        whole[1],
    ) {
        assert(cut >= 2);
        if is_marked_verbatim(whole) {
            assert(cut >= 4);
            lemma_piece_end_before(whole, cut, 4, true);
            lemma_piece_end(whole, 4, true);
            if is_marked_share(whole) {
                assert(cut >= 8);
                lemma_piece_end_before(whole, cut, 8, true);
                lemma_piece_end(whole, 8, true);
                let one = piece_end(whole, 8, true);
                if one < n {
                    lemma_piece_end_before(whole, cut, one + 1, true);
                    lemma_piece_end(whole, one + 1, true);
                    if one + 1 == cut {
                        assert(whole.subrange(one + 1, n) =~= name);
                    }
                } else {
                    assert(piece_end(whole, one + 1, true) == one + 1);
                    assert(whole.subrange(8, n) =~= name);
                }
            } else if cut == 4 {
                assert(whole.subrange(4, n) =~= name);
            }
        } else if is_marked_device(whole) {
            assert(cut >= 4);
            lemma_piece_end_before(whole, cut, 4, false);
            lemma_piece_end(whole, 4, false);
            if cut == 4 {
                assert(whole.subrange(4, n) =~= name);
            }
        } else {
            lemma_piece_end_before(whole, cut, 2, false);
            lemma_piece_end(whole, 2, false);
            let one = piece_end(whole, 2, false);
            if one < n {
                lemma_piece_end_before(whole, cut, one + 1, false);
                lemma_piece_end(whole, one + 1, false);
                if one + 1 == cut {
                    assert(whole.subrange(one + 1, n) =~= name);
                }
            }
        }
    } else if has_drive(whole) {
        assert(whole[1] == ':');
        assert(cut >= 2);
    }
}

/// A plain name after an end that it can follow is the last part of a path.
proof fn lemma_last_part(style: PathStyle, prefix: PrefixModel, before: Seq<char>, name: Seq<char>)
    requires
        is_plain_name(name),
        before.len() > 0 ==> separates(style, prefix.is_verbatim(), before.last()),
        style is Unix ==> !prefix.is_verbatim(),
    ensures
        last_word(body_model(style, prefix, before + name)) == name,
{
    let verbatim = prefix.is_verbatim();
    let body = before + name;
    let mark = divider(verbatim);
    let head = unified(style, verbatim, before);
    let even = unified(style, verbatim, body);
    let pieces = split(even, Separator::Only(mark));
    let dot = !body_model(style, prefix, body).rooted && prefix is Absent;
    assert(unified(style, verbatim, name) =~= name);
    assert(even =~= head + name);
    assert(!name.contains(mark));
    lemma_split_whole(name, Separator::Only(mark));
    if before.len() == 0 {
        assert(even =~= name);
        assert(Seq::<Seq<char>>::empty().push(name) =~= seq![name]);
        lemma_kept_push(Seq::empty(), name, verbatim, dot);
    } else {
        assert(head.last() == mark);
        assert(even =~= head.drop_last().push(mark) + name);
        lemma_split_apart(head.drop_last(), name, mark, Separator::Only(mark));
        let more = split(head.drop_last(), Separator::Only(mark));
        assert(pieces =~= more.push(name));
        lemma_kept_push(more, name, verbatim, dot);
    }
}

proof fn lemma_empty_body(style: PathStyle, prefix: PrefixModel)
    ensures
        body_model(style, prefix, Seq::empty()).parts.len() == 0,
{
    reveal_with_fuel(kept, 2);
    let verbatim = prefix.is_verbatim();
    let even = unified(style, verbatim, Seq::empty());
    assert(even =~= Seq::empty());
    let pieces = split(even, Separator::Only(divider(verbatim)));
    assert(pieces =~= seq![Seq::<char>::empty()]);
    assert(pieces.drop_last() =~= Seq::empty());
    assert(pieces.last() =~= Seq::empty());
}

/// Where a name is written after a verbatim prefix, a backslash stands before it.
proof fn lemma_verbatim_end(dir: Seq<char>, name: Seq<char>)
    requires
        is_plain_name(name),
        is_marked_verbatim(below(PathStyle::Windows, dir, name)),
    ensures
        opened(PathStyle::Windows, dir).len() > 0,
        opened(PathStyle::Windows, dir).last() == '\\',
{
    let style = PathStyle::Windows;
    let whole = below(style, dir, name);
    let front = opened(style, dir);
    let cut = front.len() as int;
    assert(cut >= 4) by {
        if cut < 4 {
            assert(name[3 - cut] == whole[3]);
        }
    }
    assert forall|i: int| 0 <= i < cut implies whole[i] == front[i] by {}
    if is_open_end(style, dir) && front.last() != '\\' {
        assert(!has_drive(dir));
        assert(dir.len() > 4);
        lemma_piece_end(dir, 4, true);
        lemma_piece_end(whole, 4, true);
        assert(whole[4] == dir[4]);
        assert(!separates(style, true, whole[4]));
        assert(is_marked_verbatim(dir));
        assert(prefix_in(style, dir).0.is_verbatim());
    }
}

/// A plain name put below a directory is the last word of its path.
pub proof fn lemma_below(style: PathStyle, dir: Seq<char>, name: Seq<char>)
    requires
        is_plain_name(name),
    ensures
        last_word(path_model(style, below(style, dir, name))) == name,
{
    let whole = below(style, dir, name);
    let front = opened(style, dir);
    let cut = front.len() as int;
    let (prefix, end) = prefix_in(style, whole);
    assert(whole.skip(cut) =~= name);
    if style is Windows {
        if is_marked_verbatim(whole) {
            lemma_verbatim_end(dir, name);
            assert(whole[cut - 1] == front.last());
        }
        if cut > 0 {
            assert(whole[cut - 1] == front.last());
            if cut == 2 {
                assert(whole[0] == front[0] && whole[1] == front[1]);
            }
        }
        lemma_prefix_before(whole, cut, name);
    }
    if end <= cut {
        let before = front.skip(end);
        assert(whole.skip(end) =~= before + name);
        if before.len() > 0 {
            assert(before.last() == front.last());
            assert(whole[cut - 1] == front.last());
            if style is Windows && prefix.is_verbatim() {
                assert(is_marked_verbatim(whole));
            }
        }
        lemma_last_part(style, prefix, before, name);
    } else {
        assert(whole.skip(end) =~= Seq::empty());
        lemma_empty_body(style, prefix);
    }
}

/// The place of the last separator before a place, or -1.
pub open spec fn last_separator(style: PathStyle, verbatim: bool, s: Seq<char>, end: int) -> int
    decreases end,
{
    if end <= 0 {
        -1
    } else if separates(style, verbatim, s[end - 1]) {
        end - 1
    } else {
        last_separator(style, verbatim, s, end - 1)
    }
}

/// The end of the last part before a place, or some place at or before the end
/// of the prefix where there is none.
pub open spec fn part_end(style: PathStyle, s: Seq<char>, end: int) -> int
    decreases end,
{
    let (prefix, from) = prefix_in(style, s);
    let verbatim = prefix.is_verbatim();
    if end <= from {
        end
    } else if separates(style, verbatim, s[end - 1]) {
        part_end(style, s, end - 1)
    } else if s[end - 1] == '.' && !verbatim && (end - 1 == from && from > 0 || end - 1 > from
        && separates(style, verbatim, s[end - 2])) {
        part_end(style, s, end - 1)
    } else {
        end
    }
}

/// Where the prefix and the written root of a path end.
pub open spec fn root_end(style: PathStyle, s: Seq<char>) -> int {
    let (prefix, end) = prefix_in(style, s);
    if end < s.len() && separates(style, prefix.is_verbatim(), s[end]) {
        end + 1
    } else {
        end
    }
}

/// The directory that a path stands in, as the text before its last part; a
/// path without parts stands in none.
pub open spec fn parent_of(style: PathStyle, s: Seq<char>) -> Option<Seq<char>> {
    let root = root_end(style, s);
    let end = part_end(style, s, s.len() as int);
    let cut = last_separator(style, prefix_in(style, s).0.is_verbatim(), s, end);
    let dir = part_end(style, s, cut);
    if end <= root {
        None
    } else if dir <= root {
        Some(s.take(root))
    } else {
        Some(s.take(dir))
    }
}

proof fn lemma_last_separator(style: PathStyle, verbatim: bool, s: Seq<char>, end: int)
    requires
        0 <= end <= s.len(),
    ensures
        -1 <= last_separator(style, verbatim, s, end) < end || (end == 0 && last_separator(
            style,
            verbatim,
            s,
            end,
        ) == -1),
    decreases end,
{
    if end > 0 {
        lemma_last_separator(style, verbatim, s, end - 1);
    }
}

fn find_part_end(
    style: PathStyle,
    verbatim: bool,
    from: usize,
    chars: &Vec<char>,
    end: usize,
) -> (r: usize)
    requires
        end <= chars@.len(),
        from == prefix_in(style, chars@).1,
        verbatim == prefix_in(style, chars@).0.is_verbatim(),
    ensures
        r == part_end(style, chars@, end as int),
        r <= end,
{
    let mut at: usize = end;
    while at > from
        invariant
            from == prefix_in(style, chars@).1,
            verbatim == prefix_in(style, chars@).0.is_verbatim(),
            at <= end <= chars@.len(),
            part_end(style, chars@, end as int) == part_end(style, chars@, at as int),
        decreases at,
    {
        let dropped = char_separates(style, verbatim, chars[at - 1]) || (chars[at - 1] == '.'
            && !verbatim && ((at - 1 == from && from > 0) || (at - 1 > from && char_separates(
            style,
            verbatim,
            chars[at - 2],
        ))));
        if !dropped {
            return at;
        }
        at = at - 1;
    }
    at
}

fn find_last_separator(style: PathStyle, verbatim: bool, chars: &Vec<char>, end: usize) -> (r:
    Option<usize>)
    requires
        end <= chars@.len(),
    ensures
        match r {
            Some(i) => last_separator(style, verbatim, chars@, end as int) == i && i < end,
            None => last_separator(style, verbatim, chars@, end as int) == -1,
        },
{
    let mut at: usize = end;
    while at > 0
        invariant
            at <= end <= chars@.len(),
            last_separator(style, verbatim, chars@, end as int) == last_separator(
                style,
                verbatim,
                chars@,
                at as int,
            ),
        decreases at,
    {
        if char_separates(style, verbatim, chars[at - 1]) {
            return Some(at - 1);
        }
        at = at - 1;
    }
    None
}

/// The directory that a path stands in; a path without parts stands in none.
pub fn parent(style: PathStyle, path: &str) -> (r: Option<String>)
    ensures
        match r {
            Some(s) => parent_of(style, path@) == Some(s@),
            None => parent_of(style, path@) is None,
        },
{
    let chars = to_chars(path);
    let (prefix, from) = find_prefix(style, &chars);
    let verbatim = prefix.is_verbatim();
    let root: usize = if from < chars.len() && char_separates(style, verbatim, chars[from]) {
        from + 1
    } else {
        from
    };
    let end: usize = find_part_end(style, verbatim, from, &chars, chars.len());
    if end <= root {
        return None;
    }
    let dir: usize = match find_last_separator(style, verbatim, &chars, end) {
        None => root,
        Some(cut) => {
            let dir: usize = find_part_end(style, verbatim, from, &chars, cut);
            if dir <= root {
                root
            } else {
                dir
            }
        },
    };
    let r = from_chars(&chars, 0, dir);
    assert(r@ =~= path@.take(dir as int));
    Some(r)
}

/// Whether a part with the extension of an application bundle ends at a place.
pub open spec fn bundle_ends_at(s: Seq<char>, end: int) -> bool {
    let name = s.subrange(last_separator(PathStyle::Unix, false, s, end) + 1, end);
    (end == s.len() || s[end] == '/') && name.len() > 4 && ends(name, ".app"@)
}

/// The last place at or before `end` where an application bundle ends, or 0.
pub open spec fn bundle_end(s: Seq<char>, end: int) -> int
    decreases end,
{
    if end <= 0 {
        0
    } else if bundle_ends_at(s, end) {
        end
    } else {
        bundle_end(s, end - 1)
    }
}

/// The innermost application bundle that a program stands in.
pub open spec fn bundle_of(s: Seq<char>) -> Option<Seq<char>> {
    let end = bundle_end(s, s.len() as int);
    if end <= 0 {
        None
    } else {
        Some(s.take(end))
    }
}

/// The innermost application bundle that a program stands in.
pub fn enclosing_app_bundle(executable: &str) -> (r: Option<String>)
    ensures
        match r {
            Some(s) => bundle_of(executable@) == Some(s@),
            None => bundle_of(executable@) is None,
        },
{
    let chars = to_chars(executable);
    let mut end: usize = chars.len();
    while end > 0
        invariant
            chars@ == executable@,
            end <= chars@.len(),
            bundle_end(chars@, chars@.len() as int) == bundle_end(chars@, end as int),
        decreases end,
    {
        if end == chars.len() || chars[end] == '/' {
            proof {
                lemma_last_separator(PathStyle::Unix, false, chars@, end as int);
            }
            let from: usize = match find_last_separator(PathStyle::Unix, false, &chars, end) {
                Some(i) => i + 1,
                None => 0,
            };
            let name = from_chars(&chars, from, end);
            if end - from > 4 && ends_with_text(name.as_str(), ".app") {
                let r = from_chars(&chars, 0, end);
                assert(r@ =~= executable@.take(end as int));
                return Some(r);
            }
        }
        end = end - 1;
    }
    None
}

/// The bundle that a program stands in is a beginning of its path that ends in
/// the extension of a bundle.
pub proof fn lemma_bundle_is_ancestor(s: Seq<char>)
    ensures
        bundle_of(s) matches Some(b) ==> begins(s, b) && ends(b, ".app"@) && (b.len() == s.len()
            || s[b.len() as int] == '/'),
{
    let end = bundle_end(s, s.len() as int);
    lemma_bundle_end(s, s.len() as int);
    if end > 0 {
        let b = s.take(end);
        assert(s.subrange(0, b.len() as int) =~= b);
        lemma_last_separator(PathStyle::Unix, false, s, end);
        let from = last_separator(PathStyle::Unix, false, s, end) + 1;
        let name = s.subrange(from, end);
        reveal_strlit(".app");
        assert(b.subrange(end - 4, end) =~= name.subrange(name.len() - 4, name.len() as int));
    }
}

proof fn lemma_bundle_end(s: Seq<char>, end: int)
    requires
        0 <= end <= s.len(),
    ensures
        0 <= bundle_end(s, end) <= end,
        bundle_end(s, end) > 0 ==> bundle_ends_at(s, bundle_end(s, end)),
    decreases end,
{
    if end > 0 && !bundle_ends_at(s, end) {
        lemma_bundle_end(s, end - 1);
    }
}

proof fn lemma_kept_sum(x: Seq<Seq<char>>, y: Seq<Seq<char>>, verbatim: bool, leading_dot: bool)
    requires
        x.len() > 0,
    ensures
        kept(x + y, verbatim, leading_dot) == kept(x, verbatim, leading_dot) + kept(
            y,
            verbatim,
            false,
        ),
    decreases y.len(),
{
    if y.len() == 0 {
        assert(x + y =~= x);
        assert(kept(x, verbatim, leading_dot) + kept(y, verbatim, false) =~= kept(
            x,
            verbatim,
            leading_dot,
        ));
    } else {
        lemma_kept_sum(x, y.drop_last(), verbatim, leading_dot);
        assert((x + y).drop_last() =~= x + y.drop_last());
        assert((x + y).last() == y.last());
        assert(kept(x + y, verbatim, leading_dot) =~= kept(x, verbatim, leading_dot) + kept(
            y,
            verbatim,
            false,
        ));
    }
}

proof fn lemma_after_slash(rest: Seq<char>)
    ensures
        path_model(PathStyle::Unix, seq!['/'] + rest).parts == kept(
            split(rest, Separator::Only('/')),
            false,
            false,
        ),
        path_model(PathStyle::Unix, seq!['/'] + rest).rooted,
{
    reveal_with_fuel(kept, 2);
    let slash = Separator::Only('/');
    let whole = seq!['/'] + rest;
    let none = Seq::<char>::empty();
    assert(whole.skip(0) =~= whole);
    assert(whole =~= none.push('/') + rest);
    lemma_split_apart(none, rest, '/', slash);
    let first = split(none, slash);
    assert(first =~= seq![none]);
    lemma_kept_sum(first, split(rest, slash), false, false);
    assert(first.drop_last() =~= Seq::empty());
    assert(kept(first, false, false) =~= Seq::empty());
    assert(kept(first, false, false) + kept(split(rest, slash), false, false) =~= kept(
        split(rest, slash),
        false,
        false,
    ));
}

/// A path on Unix has no prefix and starts at the root exactly if it begins with a
/// slash. What follows a slash adds its own parts to those before it, so that a path
/// lies in every directory that it begins with.
pub proof fn lemma_parts_add_up(dir: Seq<char>, rest: Seq<char>)
    requires
        dir.len() > 0,
    ensures
        ({
            let style = PathStyle::Unix;
            let whole = path_model(style, dir.push('/') + rest);
            &&& whole.prefix is Absent
            &&& whole.rooted <==> dir[0] == '/'
            &&& path_model(style, dir).rooted <==> dir[0] == '/'
            &&& whole.parts == path_model(style, dir).parts + path_model(
                style,
                seq!['/'] + rest,
            ).parts
            &&& lies_in(style, dir.push('/') + rest, dir)
            &&& is_absolute_path(style, dir) <==> dir[0] == '/'
        }),
{
    let style = PathStyle::Unix;
    let slash = Separator::Only('/');
    let text = dir.push('/') + rest;
    let leading = dir[0] != '/';
    assert(text.skip(0) =~= text);
    assert(dir.skip(0) =~= dir);
    assert(text[0] == dir[0]);
    lemma_split_apart(dir, rest, '/', slash);
    crate::text::lemma_split_nonempty(dir, slash);
    lemma_kept_sum(split(dir, slash), split(rest, slash), false, leading);
    lemma_after_slash(rest);
    let outer = path_model(style, dir).parts;
    let inner = path_model(style, text).parts;
    assert(inner.take(outer.len() as int) =~= outer);
}

/// A name is one part, and neither nothing nor a dot is any: separators and dots that
/// are written more than once make no other place. The empty path has no parts and is
/// not absolute.
pub proof fn lemma_one_part(name: Seq<char>)
    requires
        !name.contains('/'),
    ensures
        name.len() > 0 && name != "."@ ==> path_model(PathStyle::Unix, seq!['/'] + name).parts
            == seq![name] && path_model(PathStyle::Unix, name).parts == seq![name],
        name.len() == 0 || name == "."@ ==> path_model(PathStyle::Unix, seq!['/'] + name).parts.len()
            == 0,
        path_model(PathStyle::Unix, Seq::empty()).parts.len() == 0,
        !is_absolute_path(PathStyle::Unix, Seq::empty()),
{
    reveal_with_fuel(kept, 2);
    let slash = Separator::Only('/');
    assert forall|i: int| 0 <= i < name.len() implies !slash.cuts(#[trigger] name[i]) by {
        assert(name.contains(name[i]));
    }
    lemma_split_whole(name, slash);
    lemma_after_slash(name);
    assert(seq![name].drop_last() =~= Seq::empty());
    assert(seq![name].last() == name);
    assert(name.skip(0) =~= name);
    if name.len() > 0 {
        assert(name.contains(name[0]));
        if name != "."@ {
            assert(kept(seq![name], false, false) =~= seq![name]);
            assert(kept(seq![name], false, true) =~= seq![name]);
        }
    }
    let none = Seq::<char>::empty();
    assert(none.skip(0) =~= none);
    assert(split(none, slash) =~= seq![none]);
    assert(seq![none].drop_last() =~= Seq::empty());
}

/// A path with a drive has that drive, in any case of its letter, starts at the root
/// exactly if a separator of either kind follows, and has the parts that the rest has
/// on Unix once its separators are slashes. It is absolute exactly if it starts at the
/// root; a path without drive, share or device is not.
pub proof fn lemma_drive_paths(letter: char, body: Seq<char>, other: Seq<char>)
    requires
        is_letter(letter),
    ensures
        ({
            let style = PathStyle::Windows;
            let whole = path_model(style, seq![letter, ':'] + body);
            &&& whole.prefix == PrefixModel::Drive(lower_char(letter))
            &&& whole.rooted <==> body.len() > 0 && (body[0] == '/' || body[0] == '\\')
            &&& whole.parts == path_model(
                PathStyle::Unix,
                seq!['/'] + replaced(body, '\\', '/'),
            ).parts
            &&& is_absolute_path(style, seq![letter, ':'] + body) <==> whole.rooted
            &&& path_model(style, other).prefix is Absent ==> !is_absolute_path(style, other)
        }),
{
    let style = PathStyle::Windows;
    let text = seq![letter, ':'] + body;
    assert(has_drive(text));
    assert(text.skip(2) =~= body);
    lemma_after_slash(replaced(body, '\\', '/'));
}

/// Two paths name the same place exactly if they agree on their prefix, on where they
/// start and on all their parts, in order and in their case.
pub proof fn lemma_same_place(style: PathStyle, a: Seq<char>, b: Seq<char>)
    ensures
        ({
            let x = path_model(style, a);
            let y = path_model(style, b);
            same_place(style, a, b) <==> x.prefix == y.prefix && x.rooted == y.rooted
                && x.parts.len() == y.parts.len() && forall|i: int|
                0 <= i < x.parts.len() ==> #[trigger] x.parts[i] == y.parts[i]
        }),
{
    let x = path_model(style, a);
    let y = path_model(style, b);
    if x.parts.len() == y.parts.len() && (forall|i: int|
        0 <= i < x.parts.len() ==> #[trigger] x.parts[i] == y.parts[i]) {
        assert(x.parts =~= y.parts);
    }
}

/// A path lies in a directory exactly if it has the same prefix and start and begins
/// with all parts of the directory, each as a whole.
pub proof fn lemma_lies_in(style: PathStyle, path: Seq<char>, dir: Seq<char>)
    ensures
        ({
            let x = path_model(style, path);
            let y = path_model(style, dir);
            lies_in(style, path, dir) <==> x.prefix == y.prefix && x.rooted == y.rooted
                && y.parts.len() <= x.parts.len() && forall|i: int|
                0 <= i < y.parts.len() ==> x.parts[i] == #[trigger] y.parts[i]
        }),
        lies_in(style, path, path),
        lies_in(style, path, dir) && lies_in(style, dir, path) <==> same_place(style, path, dir),
{
    let x = path_model(style, path);
    let y = path_model(style, dir);
    let n = y.parts.len() as int;
    assert(x.parts.take(x.parts.len() as int) =~= x.parts);
    assert(y.parts.take(n) =~= y.parts);
    if lies_in(style, path, dir) {
        assert forall|i: int| 0 <= i < n implies x.parts[i] == #[trigger] y.parts[i] by {
            assert(x.parts.take(n)[i] == y.parts[i]);
        }
        if lies_in(style, dir, path) {
            assert(x.parts =~= y.parts);
        }
    }
    if n <= x.parts.len() && (forall|i: int|
        0 <= i < n ==> x.parts[i] == #[trigger] y.parts[i]) {
        assert(x.parts.take(n) =~= y.parts);
    }
}

/// The name of a path is its last part, unless that leads elsewhere.
pub proof fn lemma_name_in(style: PathStyle, s: Seq<char>)
    ensures
        ({
            let parts = path_model(style, s).parts;
            &&& parts.len() == 0 ==> name_in(style, s) is None
            &&& parts.len() > 0 && (parts.last() == ".."@ || parts.last() == "."@) ==> name_in(
                style,
                s,
            ) is None
            &&& parts.len() > 0 && parts.last() != ".."@ && parts.last() != "."@ ==> name_in(style, s)
                == Some(parts.last())
        }),
{
}

/// A name below a directory is written after one separator of the system, where none
/// stands there yet, and adds one part.
pub proof fn lemma_below_adds_a_part(style: PathStyle, dir: Seq<char>, name: Seq<char>)
    requires
        is_plain_name(name),
        dir.len() > 0,
        style is Windows ==> has_drive(dir) && dir.len() > 2,
    ensures
        ({
            let whole = below(style, dir, name);
            let before = path_model(style, dir);
            let after = path_model(style, whole);
            &&& style is Unix && dir.last() != '/' ==> whole == dir + seq!['/'] + name
            &&& style is Unix && dir.last() == '/' ==> whole == dir + name
            &&& style is Windows && dir.last() != '/' && dir.last() != '\\' ==> whole == dir + seq![
                '\\',
            ] + name
            &&& style is Windows && (dir.last() == '/' || dir.last() == '\\') ==> whole == dir + name
            &&& after.prefix == before.prefix && after.rooted == before.rooted
            &&& after.parts == before.parts.push(name)
        }),
{
    assert(!name.contains('/'));
    lemma_one_part(name);
    let whole = below(style, dir, name);
    assert(style is Unix && dir.last() != '/' ==> whole =~= dir + seq!['/'] + name);
    assert(style is Windows && dir.last() != '/' && dir.last() != '\\' ==> whole =~= dir + seq![
        '\\',
    ] + name);
    if style is Unix {
        lemma_part_after(dir, name);
    } else {
        let letter = dir[0];
        let body = dir.skip(2);
        let more = whole.skip(2);
        assert(dir =~= seq![letter, ':'] + body);
        assert(whole =~= seq![letter, ':'] + more);
        lemma_drive_paths(letter, body, dir);
        lemma_drive_paths(letter, more, dir);
        assert(more[0] == body[0]);
        let even = seq!['/'] + replaced(body, '\\', '/');
        let full = seq!['/'] + replaced(more, '\\', '/');
        assert(even.last() == replaced(body, '\\', '/').last());
        assert(even.last() == '/' <==> dir.last() == '/' || dir.last() == '\\');
        assert(full =~= (if even.last() == '/' {
            even + name
        } else {
            even + seq!['/'] + name
        })) by {
            assert forall|i: int| 0 <= i < name.len() implies name[i] != '\\' by {}
        }
        lemma_part_after(even, name);
    }
}

proof fn lemma_part_after(dir: Seq<char>, name: Seq<char>)
    requires
        dir.len() > 0,
        is_plain_name(name),
    ensures
        ({
            let whole = if dir.last() == '/' {
                dir + name
            } else {
                dir + seq!['/'] + name
            };
            let style = PathStyle::Unix;
            &&& path_model(style, whole).parts == path_model(style, dir).parts.push(name)
            &&& path_model(style, whole).rooted == path_model(style, dir).rooted
            &&& path_model(style, whole).prefix == path_model(style, dir).prefix
        }),
{
    let style = PathStyle::Unix;
    assert(!name.contains('/'));
    lemma_one_part(name);
    let none = Seq::<char>::empty();
    lemma_one_part(none);
    let before = path_model(style, dir).parts;
    if dir.last() == '/' {
        let front = dir.drop_last();
        if front.len() == 0 {
            assert(dir =~= seq!['/']);
            assert(dir =~= seq!['/'] + none);
            assert(dir + name =~= seq!['/'] + name);
            lemma_after_slash(name);
            lemma_after_slash(none);
            assert(before =~= Seq::empty());
            assert(before.push(name) =~= seq![name]);
        } else {
            assert(dir =~= front.push('/') + none);
            assert(dir + name =~= front.push('/') + name);
            lemma_parts_add_up(front, none);
            lemma_parts_add_up(front, name);
            let inner = path_model(style, front).parts;
            assert(inner + seq![name] =~= before.push(name));
        }
    } else {
        assert(dir + seq!['/'] + name =~= dir.push('/') + name);
        lemma_parts_add_up(dir, name);
        assert(before + seq![name] =~= before.push(name));
    }
}

/// A path stands in the directory that is written before its name, on Unix and after
/// a drive; the root stands in none.
pub proof fn lemma_parent(style: PathStyle, dir: Seq<char>, separator: char, name: Seq<char>)
    requires
        is_plain_name(name),
        style is Unix ==> separator == '/' && dir.len() > 0,
        style is Windows ==> (separator == '/' || separator == '\\') && has_drive(dir) && dir.len()
            > 2,
        !separates(style, false, dir.last()),
        dir.last() != '.',
    ensures
        parent_of(style, dir.push(separator) + name) == Some(dir),
        parent_of(PathStyle::Unix, seq!['/']) is None,
        parent_of(PathStyle::Unix, seq!['/'] + name) == Some(seq!['/']),
{
    reveal_strlit(".");
    let s = dir.push(separator) + name;
    let n = s.len() as int;
    let d = dir.len() as int;
    let (prefix, from) = prefix_in(style, s);
    assert forall|i: int| 0 <= i < d implies s[i] == dir[i] by {}
    assert(style is Windows ==> has_drive(s));
    assert(!prefix.is_verbatim());
    assert(s[n - 1] == name.last());
    lemma_no_lone_dot(name);
    assert(!separates(style, false, s[n - 1]));
    assert(s[n - 1] == '.' ==> s[n - 2] == name[name.len() - 2]);
    assert(part_end(style, s, n) == n);
    lemma_last_separator_at(style, s, d, n);
    assert(s[d - 1] == dir.last());
    assert(part_end(style, s, d) == d);
    assert(s.take(d) =~= dir);
    let root = seq!['/'];
    assert(prefix_in(PathStyle::Unix, root).1 == 0);
    reveal_with_fuel(part_end, 2);
    assert(part_end(PathStyle::Unix, root, 1) == 0);
    let top = root + name;
    let m = top.len() as int;
    assert(top[m - 1] == name.last());
    assert(top[m - 1] == '.' ==> top[m - 2] == name[name.len() - 2]);
    assert(part_end(PathStyle::Unix, top, m) == m);
    lemma_last_separator_at(PathStyle::Unix, top, 0, m);
    assert(part_end(PathStyle::Unix, top, 0) == 0);
    assert(top.take(1) =~= root);
}

proof fn lemma_no_lone_dot(name: Seq<char>)
    requires
        is_plain_name(name),
    ensures
        name.last() == '.' ==> name.len() >= 2,
{
    reveal_strlit(".");
    if name.last() == '.' && name.len() == 1 {
        assert(name =~= "."@);
    }
}

proof fn lemma_last_separator_at(style: PathStyle, s: Seq<char>, at: int, end: int)
    requires
        0 <= at < end <= s.len(),
        separates(style, false, s[at]),
        forall|i: int| at < i < end ==> !separates(style, false, #[trigger] s[i]),
    ensures
        last_separator(style, false, s, end) == at,
    decreases end,
{
    if end - 1 > at {
        assert(!separates(style, false, s[end - 1]));
        lemma_last_separator_at(style, s, at, end - 1);
    }
}

/// A program in a directory with the extension of an application stands in that
/// bundle or in one inside it; where nothing further has the extension, in that one.
pub proof fn lemma_bundle_is_found(front: Seq<char>, name: Seq<char>, rest: Seq<char>)
    requires
        front.len() > 0 ==> front.last() == '/',
        !name.contains('/'),
        name.len() > 4,
        ends(name, ".app"@),
        rest.len() > 0 ==> rest[0] == '/',
    ensures
        bundle_of(front + name + rest) matches Some(b) && b.len() >= front.len() + name.len(),
        !holds(rest, ".app"@) ==> bundle_of(front + name + rest) == Some(front + name),
{
    reveal_strlit(".app");
    let s = front + name + rest;
    let k = front.len() + name.len() as int;
    let style = PathStyle::Unix;
    assert forall|i: int| front.len() <= i < k implies !separates(style, false, #[trigger] s[i]) by {
        assert(s[i] == name[i - front.len()]);
        assert(name.contains(name[i - front.len()]));
    }
    if front.len() > 0 {
        assert(s[front.len() - 1] == front.last());
        lemma_last_separator_at(style, s, front.len() - 1, k);
    } else {
        lemma_no_separator(s, k);
    }
    assert(s.subrange(front.len() as int, k) =~= name);
    assert(rest.len() > 0 ==> s[k] == rest[0]);
    assert(bundle_ends_at(s, k));
    lemma_bundle_end_reaches(s, s.len() as int, k);
    let end = bundle_end(s, s.len() as int);
    lemma_bundle_end(s, s.len() as int);
    if !holds(rest, ".app"@) && end > k {
        let at = last_separator(style, false, s, end);
        assert(s[k] == '/');
        lemma_last_separator_reaches(s, end, k);
        lemma_last_separator(style, false, s, end);
        let last = s.subrange(at + 1, end);
        assert(last.subrange(last.len() - 4, last.len() as int) == ".app"@);
        assert(rest.subrange(end - 4 - k, end - k) =~= last.subrange(
            last.len() - 4,
            last.len() as int,
        ));
        assert(stands_at(rest, ".app"@, end - 4 - k));
    }
    if end == k {
        assert(s.take(k) =~= front + name);
    }
}

proof fn lemma_no_separator(s: Seq<char>, end: int)
    requires
        0 <= end <= s.len(),
        forall|i: int| 0 <= i < end ==> !separates(PathStyle::Unix, false, #[trigger] s[i]),
    ensures
        last_separator(PathStyle::Unix, false, s, end) == -1,
    decreases end,
{
    if end > 0 {
        assert(!separates(PathStyle::Unix, false, s[end - 1]));
        lemma_no_separator(s, end - 1);
    }
}

proof fn lemma_last_separator_reaches(s: Seq<char>, end: int, at: int)
    requires
        0 <= at < end <= s.len(),
        s[at] == '/',
    ensures
        last_separator(PathStyle::Unix, false, s, end) >= at,
    decreases end,
{
    if end - 1 > at {
        lemma_last_separator_reaches(s, end - 1, at);
    }
}

proof fn lemma_bundle_end_reaches(s: Seq<char>, end: int, k: int)
    requires
        0 < k <= end <= s.len(),
        bundle_ends_at(s, k),
    ensures
        bundle_end(s, end) >= k,
    decreases end,
{
    if end > k && !bundle_ends_at(s, end) {
        lemma_bundle_end_reaches(s, end - 1, k);
    }
}

/// A path to a share begins with two separators, a server and a share; it starts at
/// the root whether or not more follows, and has the parts that follow.
pub proof fn lemma_share_paths(server: Seq<char>, share: Seq<char>, body: Seq<char>)
    requires
        server.len() > 0,
        share.len() > 0,
        server != "?"@,
        server != "."@,
        forall|i: int|
            0 <= i < server.len() ==> #[trigger] server[i] != '/' && server[i] != '\\',
        forall|i: int| 0 <= i < share.len() ==> #[trigger] share[i] != '/' && share[i] != '\\',
        body.len() > 0 ==> body[0] == '/' || body[0] == '\\',
    ensures
        ({
            let whole = path_model(
                PathStyle::Windows,
                seq!['\\', '\\'] + server + seq!['\\'] + share + body,
            );
            &&& whole.prefix == PrefixModel::Share(server, share)
            &&& whole.rooted
            &&& whole.parts == path_model(
                PathStyle::Unix,
                seq!['/'] + replaced(body, '\\', '/'),
            ).parts
        }),
{
    reveal_strlit("?");
    reveal_strlit(".");
    let s = seq!['\\', '\\'] + server + seq!['\\'] + share + body;
    let one = 2 + server.len() as int;
    let two = one + 1 + share.len();
    assert forall|i: int| 2 <= i < one implies s[i] == server[i - 2] by {}
    assert(s[one] == '\\');
    assert forall|i: int| one < i < two implies s[i] == share[i - one - 1] by {}
    assert(two < s.len() ==> s[two] == body[0]);
    if s[2] == '?' && s[3] == '\\' {
        assert(one == 3);
        assert(server =~= "?"@);
    }
    if s[2] == '.' && separates(PathStyle::Windows, false, s[3]) {
        assert(one == 3);
        assert(server =~= "."@);
    }
    assert(!is_marked_verbatim(s));
    assert(!is_marked_device(s));
    assert(!has_drive(s));
    lemma_piece_ends_at(s, 2, one);
    lemma_piece_ends_at(s, one + 1, two);
    assert(s.subrange(2, one) =~= server);
    assert(s.subrange(one + 1, two) =~= share);
    assert(s.skip(two) =~= body);
    lemma_after_slash(replaced(body, '\\', '/'));
}

proof fn lemma_piece_ends_at(s: Seq<char>, from: int, end: int)
    requires
        0 <= from <= end <= s.len(),
        forall|i: int| from <= i < end ==> !separates(PathStyle::Windows, false, #[trigger] s[i]),
        end < s.len() ==> separates(PathStyle::Windows, false, s[end]),
    ensures
        piece_end(s, from, false) == end,
    decreases end - from,
{
    if from < end {
        assert(!separates(PathStyle::Windows, false, s[from]));
        lemma_piece_ends_at(s, from + 1, end);
    }
}

} // verus!
