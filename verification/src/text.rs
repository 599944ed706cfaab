//! Text as sequences of characters: the few string operations that the rest of
//! the crate needs, each with an exact contract.

use vstd::prelude::*;

verus! {

/// The text of every string of a list.
pub open spec fn texts(list: Seq<String>) -> Seq<Seq<char>> {
    Seq::new(list.len(), |i: int| list[i]@)
}

/// A text, or the empty one.
pub open spec fn or_empty(s: Option<Seq<char>>) -> Seq<char> {
    match s {
        Some(s) => s,
        None => Seq::empty(),
    }
}

/// The text of an optional string.
pub open spec fn text_of(value: Option<String>) -> Option<Seq<char>> {
    match value {
        Some(s) => Some(s@),
        None => None,
    }
}

/// Whether two texts are the same.
pub fn same_text(a: &str, b: &str) -> (r: bool)
    ensures
        r == (a@ == b@),
{
    a.to_owned() == b.to_owned()
}

/// Appends one character with `String::push`.
#[verifier::external_body]
pub(crate) fn push_char(text: &mut String, c: char)
    ensures
        final(text)@ == old(text)@.push(c),
{
    text.push(c)
}

/// The characters of a text.
pub fn to_chars(text: &str) -> (r: Vec<char>)
    ensures
        r@ == text@,
{
    let mut out: Vec<char> = Vec::new();
    for c in it: text.chars()
        invariant
            it.seq() == text@,
            out@ == text@.take(it.index()),
    {
        proof {
            assert(text@.take(it.index() + 1) =~= text@.take(it.index()).push(c));
        }
        out.push(c);
    }
    assert(text@.take(text@.len() as int) =~= text@);
    out
}

/// The text made of the characters from `from` up to `to`.
pub fn from_chars(chars: &Vec<char>, from: usize, to: usize) -> (r: String)
    requires
        from <= to <= chars@.len(),
    ensures
        r@ == chars@.subrange(from as int, to as int),
{
    let mut out = String::new();
    let mut i: usize = from;
    while i < to
        invariant
            from <= i <= to <= chars@.len(),
            out@ == chars@.subrange(from as int, i as int),
        decreases to - i,
    {
        push_char(&mut out, chars[i]);
        i = i + 1;
        assert(out@ =~= chars@.subrange(from as int, i as int));
    }
    out
}

/// The characters with Unicode's `White_Space` property.
pub open spec fn is_space(c: char) -> bool {
    ||| '\u{9}' <= c <= '\u{d}'
    ||| c == ' '
    ||| c == '\u{85}'
    ||| c == '\u{a0}'
    ||| c == '\u{1680}'
    ||| '\u{2000}' <= c <= '\u{200a}'
    ||| c == '\u{2028}'
    ||| c == '\u{2029}'
    ||| c == '\u{202f}'
    ||| c == '\u{205f}'
    ||| c == '\u{3000}'
}

/// Whether a character is white space.
pub fn char_is_space(c: char) -> (r: bool)
    ensures
        r == is_space(c),
{
    ('\u{9}' <= c && c <= '\u{d}') || c == ' ' || c == '\u{85}' || c == '\u{a0}' || c == '\u{1680}'
        || ('\u{2000}' <= c && c <= '\u{200a}') || c == '\u{2028}' || c == '\u{2029}' || c
        == '\u{202f}' || c == '\u{205f}' || c == '\u{3000}'
}

/// A text without its leading white space.
pub open spec fn trim_start(s: Seq<char>) -> Seq<char>
    decreases s.len(),
{
    if s.len() > 0 && is_space(s[0]) {
        trim_start(s.drop_first())
    } else {
        s
    }
}

/// A text without its trailing white space.
pub open spec fn trim_end(s: Seq<char>) -> Seq<char>
    decreases s.len(),
{
    if s.len() > 0 && is_space(s.last()) {
        trim_end(s.drop_last())
    } else {
        s
    }
}

/// A text without white space at its two ends.
pub open spec fn trimmed(s: Seq<char>) -> Seq<char> {
    trim_end(trim_start(s))
}

/// Removes white space at both ends of a text.
pub fn trim_text(text: &str) -> (r: String)
    ensures
        r@ == trimmed(text@),
{
    let chars = to_chars(text);
    let n: usize = chars.len();
    let mut from: usize = 0;
    assert(chars@.skip(0) =~= chars@);
    while from < n && char_is_space(chars[from])
        invariant
            n == chars@.len(),
            from <= n,
            trim_start(chars@) == trim_start(chars@.skip(from as int)),
        decreases n - from,
    {
        assert(chars@.skip(from as int).drop_first() =~= chars@.skip(from + 1));
        from = from + 1;
    }
    let ghost tail = chars@.skip(from as int);
    assert(trim_start(chars@) == tail);
    let mut to: usize = n;
    assert(chars@.subrange(from as int, to as int) =~= tail);
    while from < to && char_is_space(chars[to - 1])
        invariant
            n == chars@.len(),
            from <= to <= n,
            trim_end(tail) == trim_end(chars@.subrange(from as int, to as int)),
        decreases to - from,
    {
        assert(chars@.subrange(from as int, to as int).drop_last() =~= chars@.subrange(
            from as int,
            to - 1,
        ));
        to = to - 1;
    }
    from_chars(&chars, from, to)
}

/// The lower case form of an ASCII capital; any other character is kept.
pub open spec fn lower_char(c: char) -> char {
    if 'A' <= c <= 'Z' {
        (c as u8 + 32) as u8 as char
    } else {
        c
    }
}

/// A text with its ASCII capitals in lower case.
pub open spec fn lowered(s: Seq<char>) -> Seq<char> {
    Seq::new(s.len(), |i: int| lower_char(s[i]))
}

/// The lower case form of a letter is the letter of the same place in the small
/// alphabet; no capital is left, and nothing else is touched.
pub proof fn lemma_lower_char(c: char)
    ensures
        'A' <= c <= 'Z' ==> lower_char(c) as int == c as int + 32,
        !('A' <= c <= 'Z') ==> lower_char(c) == c,
        !('A' <= lower_char(c) <= 'Z'),
        lower_char(lower_char(c)) == lower_char(c),
{
}

/// Replaces an ASCII capital by its lower case form.
pub fn to_lower_char(c: char) -> (r: char)
    ensures
        r == lower_char(c),
{
    if 'A' <= c && c <= 'Z' {
        (c as u8 + 32) as char
    } else {
        c
    }
}

/// Replaces the ASCII capitals of a text by their lower case forms.
pub fn lower_text(text: &str) -> (r: String)
    ensures
        r@ == lowered(text@),
{
    let chars = to_chars(text);
    let mut out = String::new();
    let mut i: usize = 0;
    while i < chars.len()
        invariant
            chars@ == text@,
            i <= chars@.len(),
            out@ == lowered(chars@).take(i as int),
        decreases chars@.len() - i,
    {
        let c = to_lower_char(chars[i]);
        push_char(&mut out, c);
        i = i + 1;
        assert(out@ =~= lowered(chars@).take(i as int));
    }
    assert(lowered(text@).take(text@.len() as int) =~= lowered(text@));
    out
}

/// Whether two texts agree up to the case of their ASCII letters.
pub fn same_ignoring_case(a: &str, b: &str) -> (r: bool)
    ensures
        r == (lowered(a@) == lowered(b@)),
{
    let left = lower_text(a);
    let right = lower_text(b);
    same_text(left.as_str(), right.as_str())
}

/// Whether `needle` stands in `s` at position `at`.
pub open spec fn stands_at(s: Seq<char>, needle: Seq<char>, at: int) -> bool {
    0 <= at && at + needle.len() <= s.len() && s.subrange(at, at + needle.len()) == needle
}

/// Whether `needle` stands somewhere in `s`.
pub open spec fn holds(s: Seq<char>, needle: Seq<char>) -> bool {
    exists|at: int| stands_at(s, needle, at)
}

/// Whether `s` begins with `head`.
pub open spec fn begins(s: Seq<char>, head: Seq<char>) -> bool {
    stands_at(s, head, 0)
}

/// Whether `s` ends with `tail`.
pub open spec fn ends(s: Seq<char>, tail: Seq<char>) -> bool {
    stands_at(s, tail, s.len() - tail.len())
}

/// Whether `needle` stands in `chars` at position `at`.
pub fn chars_stand_at(chars: &Vec<char>, needle: &Vec<char>, at: usize) -> (r: bool)
    ensures
        r == stands_at(chars@, needle@, at as int),
{
    let total: usize = chars.len();
    if at > total || needle.len() > total - at {
        return false;
    }
    let mut i: usize = 0;
    while i < needle.len()
        invariant
            total == chars@.len(),
            at + needle@.len() <= total,
            i <= needle@.len(),
            forall|j: int| 0 <= j < i ==> chars@[at + j] == needle@[j],
        decreases needle@.len() - i,
    {
        if chars[at + i] != needle[i] {
            assert(chars@.subrange(at as int, at + needle@.len())[i as int] != needle@[i as int]);
            return false;
        }
        i = i + 1;
    }
    assert(chars@.subrange(at as int, at + needle@.len()) =~= needle@);
    true
}

/// Whether `text` contains `needle`.
pub fn contains_text(text: &str, needle: &str) -> (r: bool)
    ensures
        r == holds(text@, needle@),
{
    let chars = to_chars(text);
    let wanted = to_chars(needle);
    let mut at: usize = 0;
    while at < chars.len()
        invariant
            chars@ == text@,
            wanted@ == needle@,
            at <= chars@.len(),
            forall|j: int| 0 <= j < at ==> !stands_at(text@, needle@, j),
        decreases chars@.len() - at,
    {
        if chars_stand_at(&chars, &wanted, at) {
            return true;
        }
        at = at + 1;
    }
    chars_stand_at(&chars, &wanted, at)
}

/// Whether `text` starts with `head`.
pub fn starts_with_text(text: &str, head: &str) -> (r: bool)
    ensures
        r == begins(text@, head@),
{
    chars_stand_at(&to_chars(text), &to_chars(head), 0)
}

/// Whether `text` ends with `tail`.
pub fn ends_with_text(text: &str, tail: &str) -> (r: bool)
    ensures
        r == ends(text@, tail@),
{
    let chars = to_chars(text);
    let wanted = to_chars(tail);
    if wanted.len() > chars.len() {
        return false;
    }
    chars_stand_at(&chars, &wanted, chars.len() - wanted.len())
}

/// What cuts a text into pieces.
#[derive(Debug, Clone, Copy, PartialEq, Eq)]
pub enum Separator {
    /// One character.
    Only(char),
    /// Any white space.
    Space,
}

impl Separator {
    /// Whether a character cuts.
    pub open spec fn cuts(self, c: char) -> bool {
        match self {
            Separator::Only(only) => c == only,
            Separator::Space => is_space(c),
        }
    }

    /// Whether a character cuts.
    pub fn is_cut(self, c: char) -> (r: bool)
        ensures
            r == self.cuts(c),
    {
        match self {
            Separator::Only(only) => c == only,
            Separator::Space => char_is_space(c),
        }
    }
}

/// The pieces between the cuts of a text, one more than it has cuts.
pub open spec fn split(s: Seq<char>, sep: Separator) -> Seq<Seq<char>>
    decreases s.len(),
{
    if s.len() == 0 {
        seq![Seq::empty()]
    } else {
        let before = split(s.drop_last(), sep);
        if sep.cuts(s.last()) {
            before.push(Seq::empty())
        } else {
            before.drop_last().push(before.last().push(s.last()))
        }
    }
}

/// A text has at least one piece.
pub proof fn lemma_split_nonempty(s: Seq<char>, sep: Separator)
    ensures
        split(s, sep).len() >= 1,
    decreases s.len(),
{
    if s.len() > 0 {
        lemma_split_nonempty(s.drop_last(), sep);
    }
}

/// The pieces on both sides of a cut are pieces of the whole.
pub proof fn lemma_split_apart(a: Seq<char>, b: Seq<char>, c: char, sep: Separator)
    requires
        sep.cuts(c),
    ensures
        split(a.push(c) + b, sep) == split(a, sep) + split(b, sep),
    decreases b.len(),
{
    let whole = a.push(c) + b;
    if b.len() == 0 {
        assert(whole =~= a.push(c));
        assert(whole.drop_last() =~= a);
        assert(split(whole, sep) =~= split(a, sep) + split(b, sep));
    } else {
        lemma_split_apart(a, b.drop_last(), c, sep);
        lemma_split_nonempty(b.drop_last(), sep);
        assert(whole.drop_last() =~= a.push(c) + b.drop_last());
        let left = split(a, sep);
        let right = split(b.drop_last(), sep);
        let before = left + right;
        if sep.cuts(b.last()) {
            assert(before.push(Seq::empty()) =~= left + right.push(Seq::empty()));
        } else {
            assert(before.last() == right.last());
            assert(before.drop_last() =~= left + right.drop_last());
            assert(before.drop_last().push(before.last().push(b.last())) =~= left
                + right.drop_last().push(right.last().push(b.last())));
        }
    }
}

/// A text without cuts is one piece.
pub proof fn lemma_split_whole(b: Seq<char>, sep: Separator)
    requires
        forall|i: int| 0 <= i < b.len() ==> !sep.cuts(#[trigger] b[i]),
    ensures
        split(b, sep) == seq![b],
    decreases b.len(),
{
    if b.len() > 0 {
        assert(!sep.cuts(b[b.len() - 1]));
        assert forall|i: int| 0 <= i < b.drop_last().len() implies !sep.cuts(
            #[trigger] b.drop_last()[i],
        ) by {
            assert(!sep.cuts(b[i]));
        }
        lemma_split_whole(b.drop_last(), sep);
        assert(split(b, sep) =~= seq![b.drop_last().push(b.last())]);
        assert(b.drop_last().push(b.last()) =~= b);
    } else {
        assert(b =~= Seq::empty());
    }
}

/// The last piece of a text is what stands after its last cut.
pub proof fn lemma_last_piece(s: Seq<char>, sep: Separator)
    ensures
        ({
            let piece = split(s, sep).last();
            &&& piece.len() <= s.len()
            &&& s.skip(s.len() - piece.len()) == piece
            &&& forall|i: int| 0 <= i < piece.len() ==> !sep.cuts(#[trigger] piece[i])
            &&& piece.len() < s.len() ==> sep.cuts(s[s.len() - piece.len() - 1])
        }),
    decreases s.len(),
{
    let piece = split(s, sep).last();
    if s.len() > 0 {
        lemma_last_piece(s.drop_last(), sep);
        lemma_split_nonempty(s.drop_last(), sep);
        if !sep.cuts(s.last()) {
            let before = split(s.drop_last(), sep).last();
            assert(piece == before.push(s.last()));
            assert forall|i: int| 0 <= i < piece.len() implies !sep.cuts(#[trigger] piece[i]) by {
                if i < before.len() {
                    assert(piece[i] == before[i]);
                }
            }
            assert(s.drop_last().skip(s.drop_last().len() - before.len()) == before);
            assert forall|i: int| 0 <= i < piece.len() implies s.skip(s.len() - piece.len())[i]
                == piece[i] by {
                if i < before.len() {
                    assert(before[i] == s.drop_last().skip(s.drop_last().len() - before.len())[i]);
                }
            }
            assert(s.skip(s.len() - piece.len()) =~= piece);
        } else {
            assert(s.skip(s.len() as int) =~= piece);
        }
    } else {
        assert(s.skip(0) =~= piece);
    }
}

/// Cuts a text at every separator.
pub fn split_text(text: &str, sep: Separator) -> (r: Vec<String>)
    ensures
        texts(r@) == split(text@, sep),
{
    let chars = to_chars(text);
    let mut done: Vec<String> = Vec::new();
    let mut current = String::new();
    let mut i: usize = 0;
    assert(chars@.take(0) =~= Seq::<char>::empty());
    assert(split(chars@.take(0), sep) =~= texts(done@).push(current@));
    while i < chars.len()
        invariant
            chars@ == text@,
            i <= chars@.len(),
            split(chars@.take(i as int), sep) == texts(done@).push(current@),
        decreases chars@.len() - i,
    {
        let c = chars[i];
        assert(chars@.take(i + 1).drop_last() =~= chars@.take(i as int));
        assert(chars@.take(i + 1).last() == c);
        let ghost before = split(chars@.take(i as int), sep);
        if sep.is_cut(c) {
            let ghost old_done = texts(done@);
            done.push(current);
            current = String::new();
            assert(texts(done@) =~= old_done.push(before.last()));
            assert(split(chars@.take(i + 1), sep) =~= texts(done@).push(current@));
        } else {
            push_char(&mut current, c);
            assert(before.drop_last() =~= texts(done@));
        }
        i = i + 1;
    }
    assert(chars@.take(i as int) =~= text@);
    let ghost all = texts(done@).push(current@);
    done.push(current);
    assert(texts(done@) =~= all);
    done
}

/// The pieces of a list that are not empty.
pub open spec fn nonempty(list: Seq<Seq<char>>) -> Seq<Seq<char>>
    decreases list.len(),
{
    if list.len() == 0 {
        Seq::empty()
    } else if list.last().len() > 0 {
        nonempty(list.drop_last()).push(list.last())
    } else {
        nonempty(list.drop_last())
    }
}

/// The words of a text: its longest runs without white space.
pub open spec fn words(s: Seq<char>) -> Seq<Seq<char>> {
    nonempty(split(s, Separator::Space))
}

proof fn lemma_nonempty_sum(x: Seq<Seq<char>>, y: Seq<Seq<char>>)
    ensures
        nonempty(x + y) == nonempty(x) + nonempty(y),
    decreases y.len(),
{
    if y.len() == 0 {
        assert(x + y =~= x);
        assert(nonempty(x) + nonempty(y) =~= nonempty(x));
    } else {
        lemma_nonempty_sum(x, y.drop_last());
        assert((x + y).drop_last() =~= x + y.drop_last());
        assert(nonempty(x + y) =~= nonempty(x) + nonempty(y));
    }
}

/// The words on both sides of white space are the words of the whole.
pub proof fn lemma_words_apart(a: Seq<char>, b: Seq<char>, c: char)
    requires
        is_space(c),
    ensures
        words(a.push(c) + b) == words(a) + words(b),
{
    lemma_split_apart(a, b, c, Separator::Space);
    lemma_nonempty_sum(split(a, Separator::Space), split(b, Separator::Space));
}

/// Keeps the pieces that are not empty.
pub fn keep_nonempty(list: Vec<String>) -> (r: Vec<String>)
    ensures
        texts(r@) == nonempty(texts(list@)),
{
    let mut out: Vec<String> = Vec::new();
    let mut i: usize = 0;
    assert(texts(list@).take(0) =~= Seq::empty());
    while i < list.len()
        invariant
            i <= list@.len(),
            texts(out@) == nonempty(texts(list@).take(i as int)),
        decreases list@.len() - i,
    {
        assert(texts(list@).take(i + 1).drop_last() =~= texts(list@).take(i as int));
        let ghost before = texts(out@);
        if !list[i].as_str().is_empty() {
            out.push(list[i].clone());
            assert(texts(out@) =~= before.push(list@[i as int]@));
        }
        i = i + 1;
    }
    assert(texts(list@).take(i as int) =~= texts(list@));
    out
}

/// The words of a text, in order.
pub fn split_words(text: &str) -> (r: Vec<String>)
    ensures
        texts(r@) == words(text@),
{
    keep_nonempty(split_text(text, Separator::Space))
}

/// The texts of a list, one after the other with `sep` in between.
pub open spec fn joined(list: Seq<Seq<char>>, sep: Seq<char>) -> Seq<char>
    decreases list.len(),
{
    if list.len() == 0 {
        Seq::empty()
    } else if list.len() == 1 {
        list[0]
    } else {
        joined(list.drop_last(), sep) + sep + list.last()
    }
}

/// Two lists that are joined one after the other have `sep` in between too.
pub proof fn lemma_joined_sum(x: Seq<Seq<char>>, y: Seq<Seq<char>>, sep: Seq<char>)
    requires
        x.len() > 0,
        y.len() > 0,
    ensures
        joined(x + y, sep) == joined(x, sep) + sep + joined(y, sep),
    decreases y.len(),
{
    let all = x + y;
    assert(all.last() == y.last());
    assert(all.drop_last() =~= x + y.drop_last());
    if y.len() == 1 {
        assert(all.drop_last() =~= x);
    } else {
        lemma_joined_sum(x, y.drop_last(), sep);
        assert(joined(all, sep) =~= joined(x, sep) + sep + joined(y, sep));
    }
}

/// Every text of a list stands in what they are joined to.
pub proof fn lemma_joined_holds(list: Seq<Seq<char>>, sep: Seq<char>, i: int)
    requires
        0 <= i < list.len(),
    ensures
        holds(joined(list, sep), list[i]),
    decreases list.len(),
{
    let all = joined(list, sep);
    let wanted = list[i];
    if list.len() == 1 {
        assert(all.subrange(0, all.len() as int) =~= wanted);
        assert(stands_at(all, wanted, 0));
    } else {
        let front = joined(list.drop_last(), sep);
        if i < list.len() - 1 {
            lemma_joined_holds(list.drop_last(), sep, i);
            let at = choose|at: int| stands_at(front, wanted, at);
            assert(all.subrange(at, at + wanted.len()) =~= front.subrange(at, at + wanted.len()));
            assert(stands_at(all, wanted, at));
        } else {
            let at = all.len() - wanted.len();
            assert(all.subrange(at, at + wanted.len()) =~= wanted);
            assert(stands_at(all, wanted, at));
        }
    }
}

/// Joins the texts of a list with `sep` in between.
pub fn join_texts(list: &Vec<String>, sep: &str) -> (r: String)
    ensures
        r@ == joined(texts(list@), sep@),
{
    let mut out = String::new();
    let mut i: usize = 0;
    assert(texts(list@).take(0) =~= Seq::empty());
    while i < list.len()
        invariant
            i <= list@.len(),
            out@ == joined(texts(list@).take(i as int), sep@),
        decreases list@.len() - i,
    {
        assert(texts(list@).take(i + 1).drop_last() =~= texts(list@).take(i as int));
        assert(texts(list@).take(i + 1).last() == list@[i as int]@);
        if i > 0 {
            out.append(sep);
        }
        out.append(list[i].as_str());
        if i == 0 {
            assert(out@ =~= list@[0]@);
        }
        i = i + 1;
    }
    assert(texts(list@).take(i as int) =~= texts(list@));
    out
}

/// The first `n` characters of a text, or all of it.
pub open spec fn first_chars(s: Seq<char>, n: int) -> Seq<char> {
    if s.len() <= n {
        s
    } else {
        s.take(n)
    }
}

/// Keeps at most `n` characters of a text.
pub fn take_chars(text: &str, n: usize) -> (r: String)
    ensures
        r@ == first_chars(text@, n as int),
{
    let chars = to_chars(text);
    if chars.len() <= n {
        let r = from_chars(&chars, 0, chars.len());
        assert(r@ =~= text@);
        r
    } else {
        let r = from_chars(&chars, 0, n);
        assert(r@ =~= text@.take(n as int));
        r
    }
}

/// A text with every `from` replaced by `to`.
pub open spec fn replaced(s: Seq<char>, from: char, to: char) -> Seq<char> {
    Seq::new(
        s.len(),
        |i: int|
            if s[i] == from {
                to
            } else {
                s[i]
            },
    )
}

/// Replaces one character of a text by another.
pub fn replace_char(text: &str, from: char, to: char) -> (r: String)
    ensures
        r@ == replaced(text@, from, to),
{
    let chars = to_chars(text);
    let mut out = String::new();
    let mut i: usize = 0;
    while i < chars.len()
        invariant
            chars@ == text@,
            i <= chars@.len(),
            out@ == replaced(chars@, from, to).take(i as int),
        decreases chars@.len() - i,
    {
        let c = chars[i];
        push_char(
            &mut out,
            if c == from {
                to
            } else {
                c
            },
        );
        i = i + 1;
        assert(out@ =~= replaced(chars@, from, to).take(i as int));
    }
    assert(replaced(text@, from, to).take(text@.len() as int) =~= replaced(text@, from, to));
    out
}

/// The digit characters.
pub open spec fn digit_char(d: int) -> char {
    (48 + d) as u8 as char
}

/// The decimal digits of a number, without a sign.
pub open spec fn digits(n: nat) -> Seq<char>
    decreases n,
{
    if n < 10 {
        seq![digit_char(n as int)]
    } else {
        digits(n / 10).push(digit_char((n % 10) as int))
    }
}

/// A number in decimal, with a minus sign where it is negative.
pub open spec fn decimal(n: int) -> Seq<char> {
    if n < 0 {
        seq!['-'] + digits((-n) as nat)
    } else {
        digits(n as nat)
    }
}

/// The decimal digits of a number.
pub fn digits_text(n: u128) -> (r: String)
    ensures
        r@ == digits(n as nat),
    decreases n,
{
    let mut out = if n < 10 {
        String::new()
    } else {
        digits_text(n / 10)
    };
    push_char(&mut out, (48 + (n % 10) as u8) as char);
    assert(out@ =~= digits(n as nat));
    out
}

/// A signed number in decimal.
pub fn decimal_text(n: i64) -> (r: String)
    ensures
        r@ == decimal(n as int),
{
    if n >= 0 {
        return digits_text(n as u128);
    }
    let magnitude: u128 = (-(n as i128)) as u128;
    let mut out = String::new();
    push_char(&mut out, '-');
    out.append(digits_text(magnitude).as_str());
    assert(out@ =~= decimal(n as int));
    out
}

/// Whether a character is a decimal digit.
pub open spec fn is_digit(c: char) -> bool {
    '0' <= c <= '9'
}

/// The number that a run of digits writes.
pub open spec fn digits_value(s: Seq<char>) -> nat
    decreases s.len(),
{
    if s.len() == 0 {
        0
    } else {
        digits_value(s.drop_last()) * 10 + (s.last() as u8 - 48) as nat
    }
}

/// A number without its plus sign.
pub open spec fn number_body(s: Seq<char>) -> Seq<char> {
    if s.len() > 0 && s[0] == '+' {
        s.drop_first()
    } else {
        s
    }
}

/// The `u32` that a text writes: digits, after at most one plus sign.
pub open spec fn parsed_u32(s: Seq<char>) -> Option<u32> {
    let body = number_body(s);
    if body.len() > 0 && (forall|i: int| 0 <= i < body.len() ==> is_digit(body[i])) && digits_value(
        body,
    ) <= u32::MAX {
        Some(digits_value(body) as u32)
    } else {
        None
    }
}

proof fn lemma_digits_value_grows(s: Seq<char>, k: int)
    requires
        0 <= k <= s.len(),
        forall|i: int| 0 <= i < s.len() ==> is_digit(s[i]),
    ensures
        digits_value(s.take(k)) <= digits_value(s),
    decreases s.len(),
{
    if k == s.len() {
        assert(s.take(k) =~= s);
    } else {
        lemma_digits_value_grows(s.drop_last(), k);
        assert(s.drop_last().take(k) =~= s.take(k));
    }
}

/// The digits of a number are digits, at least one, and read back as the number.
pub proof fn lemma_digits_read_back(n: nat)
    ensures
        digits(n).len() > 0,
        forall|i: int| 0 <= i < digits(n).len() ==> is_digit(#[trigger] digits(n)[i]),
        digits_value(digits(n)) == n,
        n <= u32::MAX ==> parsed_u32(digits(n)) == Some(n as u32),
    decreases n,
{
    reveal_with_fuel(digits_value, 2);
    let s = digits(n);
    if n < 10 {
        assert(s.drop_last() =~= Seq::<char>::empty());
        assert(s.last() == digit_char(n as int));
    } else {
        lemma_digits_read_back(n / 10);
        assert(s.drop_last() =~= digits(n / 10));
        assert(s.last() == digit_char((n % 10) as int));
        assert forall|i: int| 0 <= i < s.len() implies is_digit(#[trigger] s[i]) by {
            if i < s.len() - 1 {
                assert(s[i] == digits(n / 10)[i]);
            }
        }
    }
    assert(is_digit(s[0]));
    assert(number_body(s) == s);
}

/// No two numbers are written alike.
pub proof fn lemma_decimals_are_apart(a: int, b: int)
    requires
        decimal(a) == decimal(b),
    ensures
        a == b,
{
    let left = if a < 0 {
        (-a) as nat
    } else {
        a as nat
    };
    let right = if b < 0 {
        (-b) as nat
    } else {
        b as nat
    };
    lemma_digits_read_back(left);
    lemma_digits_read_back(right);
    assert(is_digit(digits(left)[0]) && is_digit(digits(right)[0]));
    if a < 0 {
        assert(decimal(a)[0] == '-');
        assert(decimal(a).drop_first() =~= digits(left));
    }
    if b < 0 {
        assert(decimal(b)[0] == '-');
        assert(decimal(b).drop_first() =~= digits(right));
    }
}

/// Whether a text is white space alone.
pub open spec fn is_blank(s: Seq<char>) -> bool {
    forall|i: int| 0 <= i < s.len() ==> is_space(#[trigger] s[i])
}

/// White space around a text that has none at its ends is taken away.
pub proof fn lemma_trimmed(front: Seq<char>, s: Seq<char>, rear: Seq<char>)
    requires
        is_blank(front),
        is_blank(rear),
        s.len() > 0,
        !is_space(s[0]),
        !is_space(s.last()),
    ensures
        trimmed(front + s + rear) == s,
    decreases front.len() + rear.len(),
{
    let all = front + s + rear;
    if front.len() > 0 {
        assert(all[0] == front[0]);
        assert(all.drop_first() =~= front.drop_first() + s + rear);
        assert forall|i: int| 0 <= i < front.drop_first().len() implies is_space(
            #[trigger] front.drop_first()[i],
        ) by {
            assert(is_space(front[i + 1]));
        }
        lemma_trimmed(front.drop_first(), s, rear);
    } else {
        assert(all =~= s + rear);
        assert(all[0] == s[0]);
        assert(trim_start(all) == all);
        if rear.len() > 0 {
            assert(all.last() == rear.last());
            assert(is_space(rear[rear.len() - 1]));
            assert(all.drop_last() =~= front + s + rear.drop_last());
            assert forall|i: int| 0 <= i < rear.drop_last().len() implies is_space(
                #[trigger] rear.drop_last()[i],
            ) by {
                assert(is_space(rear[i]));
            }
            lemma_trimmed(front, s, rear.drop_last());
            let fewer = front + s + rear.drop_last();
            assert(fewer[0] == s[0]);
            assert(trim_start(fewer) == fewer);
        } else {
            assert(all =~= s);
        }
    }
}

/// Reads a `u32` in decimal.
pub fn parse_u32(text: &str) -> (r: Option<u32>)
    ensures
        r == parsed_u32(text@),
{
    let chars = to_chars(text);
    let n: usize = chars.len();
    let from: usize = if n > 0 && chars[0] == '+' {
        1
    } else {
        0
    };
    let ghost body = chars@.skip(from as int);
    proof {
        if from == 1 {
            assert(body =~= chars@.drop_first());
        } else {
            assert(body =~= chars@);
        }
    }
    if from == n {
        return None;
    }
    let mut value: u64 = 0;
    let mut i: usize = from;
    assert(body.take(0) =~= Seq::<char>::empty());
    while i < n
        invariant
            n == chars@.len(),
            from <= i <= n,
            body == chars@.skip(from as int),
            body == number_body(text@),
            forall|j: int| 0 <= j < i - from ==> is_digit(body[j]),
            value == digits_value(body.take(i - from)),
            value <= u32::MAX,
        decreases n - i,
    {
        let c = chars[i];
        assert(body[i - from] == c);
        if !('0' <= c && c <= '9') {
            assert(!is_digit(body[i - from]));
            return None;
        }
        assert(body.take(i - from + 1).drop_last() =~= body.take(i - from));
        value = value * 10 + (c as u8 - 48) as u64;
        i = i + 1;
        if value > 4294967295 {
            proof {
                if forall|j: int| 0 <= j < body.len() ==> is_digit(body[j]) {
                    lemma_digits_value_grows(body, i - from);
                }
            }
            return None;
        }
    }
    assert(body.take(n - from) =~= body);
    Some(value as u32)
}

/// Whether `a` stands before `b` in the order of their characters.
pub open spec fn sorts_before(a: Seq<char>, b: Seq<char>) -> bool
    decreases a.len(),
{
    if b.len() == 0 {
        false
    } else if a.len() == 0 {
        true
    } else if a[0] != b[0] {
        a[0] < b[0]
    } else {
        sorts_before(a.drop_first(), b.drop_first())
    }
}

/// Of two different texts one stands before the other.
pub proof fn lemma_order_is_total(a: Seq<char>, b: Seq<char>)
    ensures
        a == b || sorts_before(a, b) || sorts_before(b, a),
    decreases a.len(),
{
    if a.len() == 0 || b.len() == 0 {
        if a.len() == b.len() {
            assert(a =~= b);
        }
    } else if a[0] == b[0] {
        lemma_order_is_total(a.drop_first(), b.drop_first());
        if a.drop_first() == b.drop_first() {
            assert(a =~= seq![a[0]] + a.drop_first());
            assert(b =~= seq![b[0]] + b.drop_first());
        }
    }
}

/// The order of texts is transitive.
pub proof fn lemma_order_is_transitive(a: Seq<char>, b: Seq<char>, c: Seq<char>)
    requires
        sorts_before(a, b),
        sorts_before(b, c),
    ensures
        sorts_before(a, c),
    decreases a.len(),
{
    if a.len() > 0 && a[0] == b[0] && b[0] == c[0] {
        lemma_order_is_transitive(a.drop_first(), b.drop_first(), c.drop_first());
    }
}

/// No text stands before itself.
pub proof fn lemma_order_is_strict(a: Seq<char>)
    ensures
        !sorts_before(a, a),
    decreases a.len(),
{
    if a.len() > 0 {
        lemma_order_is_strict(a.drop_first());
    }
}

/// Whether `a` stands before `b` in the order of their characters.
pub fn text_sorts_before(a: &str, b: &str) -> (r: bool)
    ensures
        r == sorts_before(a@, b@),
{
    let left = to_chars(a);
    let right = to_chars(b);
    let mut i: usize = 0;
    assert(left@.skip(0) =~= left@);
    assert(right@.skip(0) =~= right@);
    while i < left.len() && i < right.len()
        invariant
            left@ == a@,
            right@ == b@,
            i <= left@.len(),
            i <= right@.len(),
            sorts_before(a@, b@) == sorts_before(left@.skip(i as int), right@.skip(i as int)),
        decreases left@.len() - i,
    {
        assert(left@.skip(i as int)[0] == left@[i as int]);
        assert(right@.skip(i as int)[0] == right@[i as int]);
        assert(left@.skip(i as int).drop_first() =~= left@.skip(i + 1));
        assert(right@.skip(i as int).drop_first() =~= right@.skip(i + 1));
        if left[i] != right[i] {
            return left[i] < right[i];
        }
        i = i + 1;
    }
    i < right.len()
}

/// Numbers are written in tens: a digit more stands at the end, and each digit has
/// its own character.
pub proof fn lemma_digits_by_tens(n: nat, d: nat)
    requires
        d < 10,
    ensures
        digits(d) == seq!["0123456789"@[d as int]],
        n > 0 ==> digits(n * 10 + d) == digits(n).push("0123456789"@[d as int]),
        decimal(n as int) == digits(n),
        n > 0 ==> decimal(-n) == seq!['-'] + digits(n),
{
    reveal_strlit("0123456789");
    assert((n * 10 + d) / 10 == n && (n * 10 + d) % 10 == d);
}

/// White space alone leaves nothing when it is taken away at the ends, and a text
/// that has none there stays; what is left never has any there.
pub proof fn lemma_trimming(s: Seq<char>)
    ensures
        is_blank(s) ==> trimmed(s).len() == 0,
        s.len() > 0 && !is_space(s[0]) && !is_space(s.last()) ==> trimmed(s) == s,
        trimmed(s).len() > 0 ==> !is_space(trimmed(s)[0]) && !is_space(trimmed(s).last()),
        trimmed(s).len() == 0 ==> is_blank(s),
    decreases s.len(),
{
    let none = Seq::<char>::empty();
    if s.len() > 0 && !is_space(s[0]) && !is_space(s.last()) {
        assert(none + s + none =~= s);
        lemma_trimmed(none, s, none);
    }
    lemma_trim_start(s);
    lemma_trim_end(trim_start(s));
}

proof fn lemma_trim_start(s: Seq<char>)
    ensures
        trim_start(s).len() <= s.len(),
        is_blank(s) <==> trim_start(s).len() == 0,
        trim_start(s).len() > 0 ==> !is_space(trim_start(s)[0]),
    decreases s.len(),
{
    if s.len() > 0 && is_space(s[0]) {
        let rest = s.drop_first();
        lemma_trim_start(rest);
        if is_blank(rest) {
            assert forall|i: int| 0 <= i < s.len() implies is_space(#[trigger] s[i]) by {
                if i > 0 {
                    assert(is_space(rest[i - 1]));
                }
            }
        }
        if is_blank(s) {
            assert forall|i: int| 0 <= i < rest.len() implies is_space(#[trigger] rest[i]) by {
                assert(is_space(s[i + 1]));
            }
        }
    }
}

proof fn lemma_trim_end(s: Seq<char>)
    ensures
        trim_end(s).len() <= s.len(),
        trim_end(s).len() > 0 ==> !is_space(trim_end(s).last()) && trim_end(s)[0] == s[0],
        s.len() > 0 && !is_space(s[0]) ==> trim_end(s).len() > 0,
    decreases s.len(),
{
    if s.len() > 0 && is_space(s.last()) {
        lemma_trim_end(s.drop_last());
    }
}

/// A number is read exactly from digits, after at most one plus sign, that fit.
pub proof fn lemma_numbers_are_read(s: Seq<char>, n: u32)
    ensures
        parsed_u32(digits(n as nat)) == Some(n),
        parsed_u32(seq!['+'] + digits(n as nat)) == Some(n),
        parsed_u32(Seq::empty()) is None,
        parsed_u32(s) is Some ==> s.len() > 0 && (is_digit(s[0]) || s[0] == '+') && forall|i: int|
            1 <= i < s.len() ==> is_digit(#[trigger] s[i]),
{
    lemma_digits_read_back(n as nat);
    let plain = digits(n as nat);
    let signed = seq!['+'] + plain;
    assert(signed.drop_first() =~= plain);
    if parsed_u32(s) is Some {
        let body = number_body(s);
        assert(is_digit(body[0]));
        assert forall|i: int| 1 <= i < s.len() implies is_digit(#[trigger] s[i]) by {
            if s[0] == '+' {
                assert(is_digit(body[i - 1]));
            } else {
                assert(is_digit(body[i]));
            }
        }
    }
}

/// The first characters of a text are what it begins with, as many as were asked for
/// or as there are.
pub proof fn lemma_first_chars(s: Seq<char>, n: int)
    requires
        0 <= n,
    ensures
        begins(s, first_chars(s, n)),
        n <= s.len() ==> first_chars(s, n).len() == n,
        s.len() <= n ==> first_chars(s, n) == s,
{
    let part = first_chars(s, n);
    assert(s.subrange(0, part.len() as int) =~= part);
    if n == s.len() {
        assert(s.take(n) =~= s);
    }
}

/// A text is cut at one character exactly where that stands, or at white space.
pub proof fn lemma_cuts(c: char, other: char)
    ensures
        Separator::Only(c).cuts(other) <==> other == c,
        Separator::Space.cuts(c) <==> is_space(c),
{
}

} // verus!
