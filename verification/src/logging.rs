//! Redaction of diagnostic text, and the lines and the rotation of the log.

use vstd::prelude::*;

use crate::text::{
    begins, contains_text, ends, first_chars, from_chars, holds, is_space, join_texts, joined,
    lemma_joined_sum, lemma_split_whole, lemma_words_apart, lower_char, lower_text, lowered, nonempty, split, split_words, stands_at, starts_with_text,
    take_chars, texts, to_chars, words, Separator,
};

verus! {

/// The size in bytes from which on the log file is put aside.
pub const MAX_LOG_BYTES: u64 = 1_000_000;

/// The name of the log file.
pub const LOG_FILE: &'static str = "codex-usage-monitor.log";

/// The name under which a full log file is put aside.
pub const ROTATED_LOG_FILE: &'static str = "codex-usage-monitor.log.1";

/// How often a character occurs in a text.
pub open spec fn occurrences(s: Seq<char>, c: char) -> nat
    decreases s.len(),
{
    if s.len() == 0 {
        0
    } else {
        occurrences(s.drop_last(), c) + (if s.last() == c {
            1nat
        } else {
            0nat
        })
    }
}

/// The number of bytes of a character in UTF-8.
pub open spec fn width(c: char) -> nat {
    if c <= '\u{7f}' {
        1
    } else if c <= '\u{7ff}' {
        2
    } else if c <= '\u{ffff}' {
        3
    } else {
        4
    }
}

/// The number of bytes of a text in UTF-8.
pub open spec fn byte_length(s: Seq<char>) -> nat
    decreases s.len(),
{
    if s.len() == 0 {
        0
    } else {
        byte_length(s.drop_last()) + width(s.last())
    }
}

/// Whether a word has the shape of a signed token: three parts and some length.
pub open spec fn looks_signed(word: Seq<char>) -> bool {
    occurrences(word, '.') == 2 && byte_length(word) > 40
}

/// Whether a word may hold a credential.
pub open spec fn is_sensitive(word: Seq<char>) -> bool {
    let lower = lowered(word);
    ||| holds(lower, "access_token"@)
    ||| holds(lower, "refresh_token"@)
    ||| holds(lower, "authorization:"@)
    ||| begins(lower, "bearer"@)
    ||| begins(lower, "sk-"@)
    ||| looks_signed(word)
}

/// How many words after a word belong to it and may hold a credential: the scheme
/// and the credential after the name of the header, the token after its scheme,
/// and the value after the name of a token that a colon or an equals sign ends.
pub open spec fn reach(word: Seq<char>) -> int {
    let lower = lowered(word);
    if holds(lower, "authorization:"@) {
        2
    } else if begins(lower, "bearer"@) {
        1
    } else if (holds(lower, "access_token"@) || holds(lower, "refresh_token"@)) && (word.last()
        == ':' || word.last() == '=') {
        1
    } else {
        0
    }
}

/// Whether a word of a list belongs to one before it that reaches so far.
pub open spec fn is_reached(list: Seq<Seq<char>>, i: int) -> bool {
    (i >= 1 && reach(list[i - 1]) >= 1) || (i >= 2 && reach(list[i - 2]) >= 2)
}

/// The place of the first occurrence of a character, or the length of the text.
pub open spec fn first_place(s: Seq<char>, c: char) -> int
    decreases s.len(),
{
    if s.len() == 0 || s[0] == c {
        0
    } else {
        1 + first_place(s.drop_first(), c)
    }
}

/// An address of which `shown` characters before the sign and the domain stay.
pub open spec fn masked(word: Seq<char>, shown: int) -> Seq<char> {
    let at = first_place(word, '@');
    if at >= word.len() {
        "[REDACTED_EMAIL]"@
    } else {
        first_chars(word.take(at), shown) + "***@"@ + word.skip(at + 1)
    }
}

/// Whether a character ends what stands before it: it is part of no address.
pub open spec fn is_break(c: char) -> bool {
    c == ',' || c == ';' || c == ':' || c == '<' || c == '>' || c == '(' || c == ')' || c == '['
        || c == ']' || c == '"' || c == '\\'
}

/// The place after the last break before a place, or 0.
pub open spec fn break_end(s: Seq<char>, end: int) -> int
    decreases end,
{
    if end <= 0 {
        0
    } else if is_break(s[end - 1]) {
        end
    } else {
        break_end(s, end - 1)
    }
}

/// Where the domain after a sign ends: where the next address begins, or at the
/// end of the text.
pub open spec fn domain_end(rest: Seq<char>) -> int {
    let next = first_place(rest, '@');
    if next < rest.len() {
        break_end(rest, next)
    } else {
        rest.len() as int
    }
}

/// A word of which the domains and one character before each sign stay.
pub open spec fn masked_all(word: Seq<char>) -> Seq<char>
    decreases word.len(),
{
    let at = first_place(word, '@');
    if 0 <= at < word.len() {
        let rest = word.skip(at + 1);
        let cut = domain_end(rest);
        first_chars(word.take(at), 1) + "***@"@ + rest.take(cut) + (if 0 <= cut <= rest.len() {
            masked_all(rest.skip(cut))
        } else {
            Seq::empty()
        })
    } else {
        word
    }
}

/// What is shown of a word that belongs to none before it.
pub open spec fn safe_word(word: Seq<char>) -> Seq<char> {
    if is_sensitive(word) {
        "[REDACTED]"@
    } else {
        masked_all(word)
    }
}

/// Whether a word of a list is replaced as a whole.
pub open spec fn is_hidden(list: Seq<Seq<char>>, i: int) -> bool {
    is_sensitive(list[i]) || is_reached(list, i)
}

/// What is shown of every word of a list.
pub open spec fn safe_words(list: Seq<Seq<char>>) -> Seq<Seq<char>> {
    Seq::new(
        list.len(),
        |i: int|
            if is_reached(list, i) {
                "[REDACTED]"@
            } else {
                safe_word(list[i])
            },
    )
}

/// What is shown of a text: its words, each made safe, one blank apart.
pub open spec fn redacted(s: Seq<char>) -> Seq<char> {
    joined(safe_words(words(s)), " "@)
}

fn has_signed_shape(word: &str) -> (r: bool)
    ensures
        r == looks_signed(word@),
{
    let chars = to_chars(word);
    let mut dots: u8 = 0;
    let mut bytes: u8 = 0;
    let mut i: usize = 0;
    assert(chars@.take(0) =~= Seq::<char>::empty());
    while i < chars.len()
        invariant
            chars@ == word@,
            i <= chars@.len(),
            dots <= 3,
            bytes <= 44,
            dots < 3 ==> dots == occurrences(word@.take(i as int), '.'),
            dots == 3 ==> occurrences(word@.take(i as int), '.') >= 3,
            bytes <= 40 ==> bytes == byte_length(word@.take(i as int)),
            bytes > 40 ==> byte_length(word@.take(i as int)) > 40,
        decreases chars@.len() - i,
    {
        let c = chars[i];
        assert(word@.take(i + 1).drop_last() =~= word@.take(i as int));
        assert(word@.take(i + 1).last() == c);
        if c == '.' && dots < 3 {
            dots = dots + 1;
        }
        if bytes <= 40 {
            bytes = bytes + (if c <= '\u{7f}' {
                1
            } else if c <= '\u{7ff}' {
                2
            } else if c <= '\u{ffff}' {
                3
            } else {
                4
            });
        }
        i = i + 1;
    }
    assert(word@.take(i as int) =~= word@);
    dots == 2 && bytes > 40
}

fn word_is_sensitive(word: &str) -> (r: bool)
    ensures
        r == is_sensitive(word@),
{
    let lower = lower_text(word);
    let lower = lower.as_str();
    contains_text(lower, "access_token") || contains_text(lower, "refresh_token") || contains_text(
        lower,
        "authorization:",
    ) || starts_with_text(lower, "bearer") || starts_with_text(lower, "sk-") || has_signed_shape(
        word,
    )
}

/// The place of the first occurrence of a character, or the length of the text.
pub fn find_char(chars: &Vec<char>, c: char) -> (r: usize)
    ensures
        r == first_place(chars@, c),
        r <= chars@.len(),
        r < chars@.len() <==> chars@.contains(c),
{
    let mut i: usize = 0;
    assert(chars@.skip(0) =~= chars@);
    while i < chars.len() && chars[i] != c
        invariant
            i <= chars@.len(),
            first_place(chars@, c) == i + first_place(chars@.skip(i as int), c),
            forall|j: int| 0 <= j < i ==> chars@[j] != c,
        decreases chars@.len() - i,
    {
        assert(chars@.skip(i as int).drop_first() =~= chars@.skip(i + 1));
        i = i + 1;
    }
    proof {
        if i < chars@.len() {
            assert(chars@[i as int] == c);
        }
    }
    i
}

/// Hides the part of an address before its sign, but for the first `shown` characters.
pub fn mask_address(word: &str, shown: usize) -> (r: String)
    ensures
        r@ == masked(word@, shown as int),
{
    let chars = to_chars(word);
    let at: usize = find_char(&chars, '@');
    if at >= chars.len() {
        return "[REDACTED_EMAIL]".to_owned();
    }
    let local = from_chars(&chars, 0, at);
    let mut out = take_chars(local.as_str(), shown);
    out.append("***@");
    out.append(from_chars(&chars, at + 1, chars.len()).as_str());
    assert(local@ =~= word@.take(at as int));
    assert(chars@.subrange(at + 1, chars@.len() as int) =~= word@.skip(at + 1));
    out
}

fn word_reach(word: &str) -> (r: usize)
    requires
        word@.len() > 0,
    ensures
        r == reach(word@),
{
    let lower = lower_text(word);
    let lower = lower.as_str();
    if contains_text(lower, "authorization:") {
        return 2;
    }
    if starts_with_text(lower, "bearer") {
        return 1;
    }
    if contains_text(lower, "access_token") || contains_text(lower, "refresh_token") {
        let chars = to_chars(word);
        let last = chars[chars.len() - 1];
        if last == ':' || last == '=' {
            return 1;
        }
    }
    0
}

fn char_breaks(c: char) -> (r: bool)
    ensures
        r == is_break(c),
{
    c == ',' || c == ';' || c == ':' || c == '<' || c == '>' || c == '(' || c == ')' || c == '['
        || c == ']' || c == '"' || c == '\\'
}

fn find_domain_end(rest: &Vec<char>) -> (r: usize)
    ensures
        r == domain_end(rest@),
        r <= rest@.len(),
{
    let next: usize = find_char(rest, '@');
    if next >= rest.len() {
        return rest.len();
    }
    let mut end: usize = next;
    while end > 0
        invariant
            end <= next < rest@.len(),
            next == first_place(rest@, '@'),
            break_end(rest@, next as int) == break_end(rest@, end as int),
        decreases end,
    {
        if char_breaks(rest[end - 1]) {
            return end;
        }
        end = end - 1;
    }
    end
}

fn mask_all(word: &str) -> (r: String)
    ensures
        r@ == masked_all(word@),
    decreases word@.len(),
{
    let chars = to_chars(word);
    let n: usize = chars.len();
    let at: usize = find_char(&chars, '@');
    if at >= n {
        return word.to_owned();
    }
    let local = from_chars(&chars, 0, at);
    let rest = from_chars(&chars, at + 1, n);
    let rest_chars = to_chars(rest.as_str());
    let cut: usize = find_domain_end(&rest_chars);
    let domain = from_chars(&rest_chars, 0, cut);
    let more = from_chars(&rest_chars, cut, rest_chars.len());
    let mut out = take_chars(local.as_str(), 1);
    out.append("***@");
    out.append(domain.as_str());
    assert(local@ =~= word@.take(at as int));
    assert(rest@ =~= word@.skip(at + 1));
    assert(domain@ =~= rest@.take(cut as int));
    assert(more@ =~= rest@.skip(cut as int));
    out.append(mask_all(more.as_str()).as_str());
    out
}

fn redact_word(word: &str) -> (r: String)
    ensures
        r@ == safe_word(word@),
{
    if word_is_sensitive(word) {
        "[REDACTED]".to_owned()
    } else {
        mask_all(word)
    }
}

fn word_is_reached(list: &Vec<String>, i: usize) -> (r: bool)
    requires
        i < list@.len(),
        forall|j: int| 0 <= j < list@.len() ==> (#[trigger] list@[j])@.len() > 0,
    ensures
        r == is_reached(texts(list@), i as int),
{
    (i >= 1 && word_reach(list[i - 1].as_str()) >= 1) || (i >= 2 && word_reach(
        list[i - 2].as_str(),
    ) >= 2)
}

/// Replaces the words of a text that may hold a credential, and masks addresses.
pub fn redact(input: &str) -> (r: String)
    ensures
        r@ == redacted(input@),
{
    let list = split_words(input);
    let ghost all = texts(list@);
    assert forall|j: int| 0 <= j < list@.len() implies (#[trigger] list@[j])@.len() > 0 by {
        lemma_words_are_solid(input@);
        assert(words(input@)[j] == list@[j]@);
    }
    let mut safe: Vec<String> = Vec::new();
    let mut i: usize = 0;
    while i < list.len()
        invariant
            all == texts(list@),
            forall|j: int| 0 <= j < list@.len() ==> (#[trigger] list@[j])@.len() > 0,
            i <= list@.len(),
            texts(safe@) == safe_words(all).take(i as int),
        decreases list@.len() - i,
    {
        let ghost before = texts(safe@);
        let word = if word_is_reached(&list, i) {
            "[REDACTED]".to_owned()
        } else {
            redact_word(list[i].as_str())
        };
        safe.push(word);
        i = i + 1;
        assert(texts(safe@) =~= before.push(word@));
        assert(texts(safe@) =~= safe_words(all).take(i as int));
    }
    assert(safe_words(all).take(i as int) =~= safe_words(all));
    join_texts(&safe, " ")
}

/// The line that the log gets for a message.
pub open spec fn log_line(stamp: Seq<char>, level: Seq<char>, message: Seq<char>) -> Seq<char> {
    stamp + " ["@ + level + "] "@ + redacted(message)
}

fn write(stamp: &str, level: &str, message: &str) -> (r: String)
    ensures
        r@ == log_line(stamp@, level@, message@),
{
    let mut out = stamp.to_owned();
    out.append(" [");
    out.append(level);
    out.append("] ");
    out.append(redact(message).as_str());
    out
}

/// The log line of an ordinary event at the time that `stamp` writes.
pub fn info(stamp: &str, message: &str) -> (r: String)
    ensures
        r@ == log_line(stamp@, "INFO"@, message@),
{
    write(stamp, "INFO", message)
}

/// The log line of a warning at the time that `stamp` writes.
pub fn warn(stamp: &str, message: &str) -> (r: String)
    ensures
        r@ == log_line(stamp@, "WARN"@, message@),
{
    write(stamp, "WARN", message)
}

/// Whether a log file of this size is put aside before the next line.
pub fn needs_rotation(size: u64) -> (r: bool)
    ensures
        r == (size >= 1_000_000),
{
    size >= MAX_LOG_BYTES
}

/// Whether no character of a text is white space.
pub open spec fn is_solid(s: Seq<char>) -> bool {
    forall|i: int| 0 <= i < s.len() ==> !is_space(#[trigger] s[i])
}

proof fn lemma_split_is_solid(s: Seq<char>)
    ensures
        split(s, Separator::Space).len() >= 1,
        forall|i: int|
            0 <= i < split(s, Separator::Space).len() ==> is_solid(
                #[trigger] split(s, Separator::Space)[i],
            ),
    decreases s.len(),
{
    if s.len() > 0 {
        lemma_split_is_solid(s.drop_last());
    }
}

proof fn lemma_nonempty_keeps(list: Seq<Seq<char>>)
    requires
        forall|i: int| 0 <= i < list.len() ==> is_solid(#[trigger] list[i]),
    ensures
        forall|i: int|
            0 <= i < nonempty(list).len() ==> is_solid(#[trigger] nonempty(list)[i])
                && nonempty(list)[i].len() > 0,
    decreases list.len(),
{
    if list.len() > 0 {
        let last = list[list.len() - 1];
        assert(is_solid(last));
        lemma_nonempty_keeps(list.drop_last());
        let before = nonempty(list.drop_last());
        if last.len() > 0 {
            assert forall|i: int| 0 <= i < nonempty(list).len() implies is_solid(
                #[trigger] nonempty(list)[i],
            ) && nonempty(list)[i].len() > 0 by {
                if i < before.len() {
                    assert(nonempty(list)[i] == before[i]);
                } else {
                    assert(nonempty(list)[i] == last);
                }
            }
        }
    }
}

/// The words of a text hold no white space and are not empty.
pub proof fn lemma_words_are_solid(s: Seq<char>)
    ensures
        forall|i: int|
            0 <= i < words(s).len() ==> is_solid(#[trigger] words(s)[i]) && words(s)[i].len() > 0,
{
    lemma_split_is_solid(s);
    lemma_nonempty_keeps(split(s, Separator::Space));
}

/// A solid text that stands in a list of texts joined with blanks stands in one of them.
pub proof fn lemma_solid_text_in_one_word(list: Seq<Seq<char>>, needle: Seq<char>)
    requires
        needle.len() > 0,
        is_solid(needle),
        holds(joined(list, " "@), needle),
    ensures
        exists|i: int| 0 <= i < list.len() && holds(#[trigger] list[i], needle),
    decreases list.len(),
{
    reveal_strlit(" ");
    let all = joined(list, " "@);
    let at = choose|at: int| stands_at(all, needle, at);
    if list.len() == 0 {
        assert(all.len() == 0);
    } else if list.len() == 1 {
        assert(holds(list[0], needle));
    } else {
        let front = joined(list.drop_last(), " "@);
        let last = list.last();
        assert(all == front + " "@ + last);
        assert(all[front.len() as int] == ' ');
        if at + needle.len() <= front.len() {
            assert(front.subrange(at, at + needle.len()) =~= all.subrange(at, at + needle.len()));
            assert(stands_at(front, needle, at));
            lemma_solid_text_in_one_word(list.drop_last(), needle);
            let i = choose|i: int|
                0 <= i < list.drop_last().len() && holds(#[trigger] list.drop_last()[i], needle);
            assert(list[i] == list.drop_last()[i]);
        } else if at > front.len() {
            let start = at - front.len() - 1;
            assert(last.subrange(start, start + needle.len()) =~= all.subrange(
                at,
                at + needle.len(),
            ));
            assert(stands_at(last, needle, start));
            assert(holds(list[list.len() - 1], needle));
        } else {
            let blank = front.len() - at;
            assert(all.subrange(at, at + needle.len())[blank] == ' ');
            assert(needle[blank] == ' ');
            assert(is_space(needle[blank]));
        }
    }
}

proof fn lemma_lowered_joined(list: Seq<Seq<char>>)
    ensures
        lowered(joined(list, " "@)) == joined(
            Seq::new(list.len(), |i: int| lowered(list[i])),
            " "@,
        ),
    decreases list.len(),
{
    reveal_strlit(" ");
    let low = Seq::new(list.len(), |i: int| lowered(list[i]));
    if list.len() == 0 {
        assert(lowered(joined(list, " "@)) =~= joined(low, " "@));
    } else if list.len() == 1 {
        assert(lowered(joined(list, " "@)) =~= joined(low, " "@));
    } else {
        lemma_lowered_joined(list.drop_last());
        assert(low.drop_last() =~= Seq::new(
            list.drop_last().len(),
            |i: int| lowered(list.drop_last()[i]),
        ));
        assert(lowered(joined(list, " "@)) =~= joined(low, " "@));
    }
}

/// Whether a text has one of the marks that redaction looks for inside words.
pub open spec fn is_marker(mark: Seq<char>) -> bool {
    mark == "access_token"@ || mark == "refresh_token"@ || mark == "authorization:"@
}

/// The first place of a character that a text holds is a place of it.
pub proof fn lemma_first_place(s: Seq<char>, c: char)
    ensures
        0 <= first_place(s, c) <= s.len(),
        s.contains(c) ==> first_place(s, c) < s.len() && s[first_place(s, c)] == c,
        forall|i: int| 0 <= i < first_place(s, c) ==> s[i] != c,
    decreases s.len(),
{
    if s.len() > 0 && s[0] != c {
        let rest = s.drop_first();
        lemma_first_place(rest, c);
        if s.contains(c) {
            let i = choose|i: int| 0 <= i < s.len() && s[i] == c;
            assert(rest[i - 1] == c);
        }
        assert forall|i: int| 0 <= i < first_place(s, c) implies s[i] != c by {
            if i > 0 {
                assert(rest[i - 1] == s[i]);
            }
        }
    }
}

proof fn lemma_break_end(s: Seq<char>, end: int)
    requires
        0 <= end <= s.len(),
    ensures
        0 <= break_end(s, end) <= end,
        break_end(s, end) > 0 ==> is_break(s[break_end(s, end) - 1]),
    decreases end,
{
    if end > 0 {
        lemma_break_end(s, end - 1);
    }
}

/// How a masked word is made up: of one character at most, stars and a sign, a
/// domain, and what is masked after it.
proof fn lemma_masked_pieces(word: Seq<char>)
    requires
        word.contains('@'),
    ensures
        ({
            let at = first_place(word, '@');
            let rest = word.skip(at + 1);
            let cut = domain_end(rest);
            let head = first_chars(word.take(at), 1);
            &&& 0 <= at < word.len()
            &&& head.len() <= 1
            &&& head.len() <= at
            &&& head.len() == 1 ==> head[0] == word[0]
            &&& at > 0 ==> head.len() == 1
            &&& 0 <= cut <= rest.len()
            &&& 0 < cut < rest.len() ==> is_break(rest[cut - 1])
            &&& cut < rest.len() ==> rest.skip(cut).contains('@')
            &&& masked_all(word) == head + "***@"@ + rest.take(cut) + masked_all(rest.skip(cut))
        }),
{
    lemma_first_place(word, '@');
    let at = first_place(word, '@');
    let rest = word.skip(at + 1);
    let cut = domain_end(rest);
    let next = first_place(rest, '@');
    lemma_first_place(rest, '@');
    if next < rest.len() {
        lemma_break_end(rest, next);
        assert(rest.skip(cut)[next - cut] == '@') by {
            if !rest.contains('@') {
                lemma_no_place(rest, '@');
            }
        }
    }
}

proof fn lemma_no_place(s: Seq<char>, c: char)
    requires
        !s.contains(c),
    ensures
        first_place(s, c) == s.len(),
    decreases s.len(),
{
    if s.len() > 0 {
        assert(s[0] != c) by {
            assert(s.contains(s[0]));
        }
        assert forall|x: char| s.drop_first().contains(x) implies s.contains(x) by {
            let i = choose|i: int| 0 <= i < s.drop_first().len() && s.drop_first()[i] == x;
            assert(s[i + 1] == x);
        }
        lemma_no_place(s.drop_first(), c);
    }
}

/// What begins before the end of the first domain of a masked word, and holds no
/// stars and signs, stood in the word.
proof fn lemma_shown_before_tail(
    word: Seq<char>,
    shown: Seq<char>,
    needle: Seq<char>,
    at: int,
    h: int,
    sign: int,
    cut: int,
)
    requires
        needle.len() > 0,
        0 <= at < h + 4 + cut,
        at + needle.len() <= shown.len(),
        0 <= h <= 1,
        0 <= cut,
        0 <= sign,
        sign + 1 + cut <= word.len(),
        h + 4 + cut <= shown.len(),
        h == 1 ==> shown[0] == word[0],
        shown[h] == '*' && shown[h + 1] == '*' && shown[h + 2] == '*' && shown[h + 3] == '@',
        forall|i: int|
            h + 4 <= i < h + 4 + cut ==> #[trigger] shown[i] == word[i - (h + 4) + sign + 1],
        h + 4 + cut < shown.len() ==> shown[h + 4 + cut] == '*' || (sign + 1 + cut < word.len()
            && shown[h + 4 + cut] == word[sign + 1 + cut] && h + 5 + cut < shown.len() && shown[h
            + 5 + cut] == '*'),
        forall|i: int|
            at <= i < at + needle.len() ==> #[trigger] shown[i] == needle[i - at] && shown[i] != '*'
                && shown[i] != '@',
    ensures
        holds(word, needle),
{
    let t = h + 4 + cut;
    if at < h + 4 {
        assert(at < h) by {
            if at >= h {
                assert(shown[at] == needle[0]);
            }
        }
        if needle.len() > 1 {
            assert(shown[1] != '*');
        }
        assert(shown[0] == needle[0]);
        assert(word.subrange(0, 1) =~= needle);
        assert(stands_at(word, needle, 0));
    } else {
        let there = at - (h + 4) + sign + 1;
        if at + needle.len() > t {
            assert(shown[t] != '*');
            if at + needle.len() > t + 1 {
                assert(shown[t + 1] != '*');
            }
        }
        assert(there + needle.len() <= word.len());
        let found = word.subrange(there, there + needle.len());
        assert forall|k: int| 0 <= k < needle.len() implies #[trigger] found[k] == needle[k] by {
            assert(shown[at + k] == needle[at + k - at]);
        }
        assert(found =~= needle);
        assert(stands_at(word, needle, there));
    }
}

/// What a masked word shows without stars and signs stood in the word.
proof fn lemma_masked_shows_the_word(word: Seq<char>, needle: Seq<char>, at: int)
    requires
        needle.len() > 0,
        !needle.contains('*'),
        !needle.contains('@'),
        stands_at(masked_all(word), needle, at),
    ensures
        holds(word, needle),
    decreases word.len(),
{
    let shown = masked_all(word);
    if !word.contains('@') {
        lemma_no_place(word, '@');
        assert(holds(word, needle));
    } else {
        lemma_masked_pieces(word);
        let sign = first_place(word, '@');
        let rest = word.skip(sign + 1);
        let cut = domain_end(rest);
        let next = rest.skip(cut);
        let tail = masked_all(next);
        let head = first_chars(word.take(sign), 1);
        let h = head.len() as int;
        let t = h + 4 + cut;
        if at >= t {
            reveal_strlit("***@");
            assert(tail.subrange(at - t, at - t + needle.len()) =~= shown.subrange(
                at,
                at + needle.len(),
            ));
            assert(stands_at(tail, needle, at - t));
            lemma_masked_shows_the_word(next, needle, at - t);
            let p = choose|p: int| stands_at(next, needle, p);
            let there = p + cut + sign + 1;
            assert(next.subrange(p, p + needle.len()) =~= word.subrange(
                there,
                there + needle.len(),
            ));
            assert(stands_at(word, needle, there));
        } else {
            assert forall|i: int| at <= i < at + needle.len() implies #[trigger] shown[i]
                == needle[i - at] && shown[i] != '*' && shown[i] != '@' by {
                assert(shown.subrange(at, at + needle.len())[i - at] == needle[i - at]);
                assert(needle.contains(needle[i - at]));
            }
            lemma_masked_places(word);
            lemma_shown_before_tail(word, shown, needle, at, h, sign, cut);
        }
    }
}

/// What stands at the places of a masked word up to the end of its first domain,
/// and at the two after that.
proof fn lemma_masked_places(word: Seq<char>)
    requires
        word.contains('@'),
    ensures
        ({
            let sign = first_place(word, '@');
            let cut = domain_end(word.skip(sign + 1));
            let h = first_chars(word.take(sign), 1).len() as int;
            let t = h + 4 + cut;
            let shown = masked_all(word);
            &&& t <= shown.len()
            &&& h == 1 ==> shown[0] == word[0]
            &&& shown[h] == '*' && shown[h + 1] == '*' && shown[h + 2] == '*' && shown[h + 3] == '@'
            &&& forall|i: int|
                h + 4 <= i < t ==> #[trigger] shown[i] == word[i - (h + 4) + sign + 1]
            &&& t < shown.len() ==> shown[t] == '*' || (sign + 1 + cut < word.len() && shown[t]
                == word[sign + 1 + cut] && t + 1 < shown.len() && shown[t + 1] == '*')
        }),
{
    reveal_strlit("***@");
    lemma_masked_pieces(word);
    let sign = first_place(word, '@');
    let rest = word.skip(sign + 1);
    let cut = domain_end(rest);
    let next = rest.skip(cut);
    let tail = masked_all(next);
    let head = first_chars(word.take(sign), 1);
    let shown = masked_all(word);
    let front = head + "***@"@ + rest.take(cut);
    let t = front.len() as int;
    assert(shown == front + tail);
    assert forall|i: int| 0 <= i < t implies #[trigger] shown[i] == front[i] by {}
    if t < shown.len() {
        assert(shown[t] == tail[0]);
        assert(cut < rest.len()) by {
            if cut == rest.len() {
                assert(next =~= Seq::empty());
            }
        }
        lemma_masked_pieces(next);
        let own = first_chars(next.take(first_place(next, '@')), 1);
        let rear = next.skip(first_place(next, '@') + 1);
        assert(tail[own.len() as int] == '*') by {
            assert(tail == own + "***@"@ + rear.take(domain_end(rear)) + masked_all(
                rear.skip(domain_end(rear)),
            ));
        }
        assert(next[0] == word[sign + 1 + cut]);
        if own.len() == 1 {
            assert(shown[t + 1] == tail[1]);
        }
    }
}

/// Whether of the address before every sign of a text one character stays at most:
/// stars stand before the sign, and before them a break or another sign, or one
/// character after those.
pub open spec fn is_masked(s: Seq<char>) -> bool {
    forall|k: int|
        0 <= k < s.len() && #[trigger] s[k] == '@' ==> k >= 3 && s[k - 1] == '*' && s[k - 2] == '*'
            && s[k - 3] == '*' && (k <= 4 || ends_address(s[k - 4]) || ends_address(s[k - 5]))
}

/// Whether a character ends an address or stands outside of any.
pub open spec fn ends_address(c: char) -> bool {
    c == '@' || is_break(c) || is_space(c)
}

proof fn lemma_masked_all(word: Seq<char>)
    ensures
        is_masked(masked_all(word)),
    decreases word.len(),
{
    let shown = masked_all(word);
    if !word.contains('@') {
        lemma_no_place(word, '@');
        assert forall|k: int| 0 <= k < shown.len() implies #[trigger] shown[k] != '@' by {
            assert(word.contains(word[k]));
        }
    } else {
        reveal_strlit("***@");
        lemma_masked_pieces(word);
        let sign = first_place(word, '@');
        let rest = word.skip(sign + 1);
        let cut = domain_end(rest);
        let head = first_chars(word.take(sign), 1);
        let next = rest.skip(cut);
        let tail = masked_all(next);
        let h = head.len() as int;
        let t = h + 4 + cut;
        lemma_first_place(word, '@');
        lemma_first_place(rest, '@');
        lemma_masked_all(next);
        if next.contains('@') {
            lemma_masked_pieces(next);
        }
        assert forall|k: int| 0 <= k < tail.len() implies shown[t + k] == #[trigger] tail[k] by {}
        assert forall|k: int| 0 <= k < cut implies shown[h + 4 + k] == #[trigger] rest[k] by {}
        assert(shown[h] == '*' && shown[h + 1] == '*' && shown[h + 2] == '*' && shown[h + 3] == '@');
        assert(ends_address(shown[t - 1]) || next.len() == 0) by {
            if cut > 0 && cut < rest.len() {
                assert(shown[h + 4 + (cut - 1)] == rest[cut - 1]);
            } else if cut == 0 {
                assert(shown[t - 1] == '@');
            }
        }
        assert forall|k: int| 0 <= k < shown.len() && #[trigger] shown[k] == '@' implies k >= 3
            && shown[k - 1] == '*' && shown[k - 2] == '*' && shown[k - 3] == '*' && (k <= 4
            || ends_address(shown[k - 4]) || ends_address(shown[k - 5])) by {
            if k < h {
                assert(shown[k] == word[0]);
                assert(sign > 0);
            } else if k < h + 4 {
                assert(k == h + 3);
            } else if k < t {
                assert(shown[h + 4 + (k - h - 4)] == rest[k - h - 4]);
                lemma_no_sign_before(rest, k - h - 4);
            } else {
                let j = k - t;
                assert(tail[j] == '@');
                assert(shown[t + (j - 1)] == tail[j - 1]);
                assert(shown[t + (j - 2)] == tail[j - 2]);
                assert(shown[t + (j - 3)] == tail[j - 3]);
                if j == 4 {
                    assert(shown[k - 5] == shown[t - 1]);
                } else if j == 3 {
                    assert(shown[k - 4] == shown[t - 1]);
                } else {
                    assert(shown[t + (j - 4)] == tail[j - 4]);
                    assert(shown[t + (j - 5)] == tail[j - 5]);
                }
            }
        }
    }
}

proof fn lemma_no_sign_before(rest: Seq<char>, k: int)
    requires
        0 <= k < domain_end(rest),
        k < rest.len(),
    ensures
        rest[k] != '@',
{
    lemma_first_place(rest, '@');
    let next = first_place(rest, '@');
    if next < rest.len() {
        lemma_break_end(rest, next);
    } else if rest[k] == '@' {
        assert(rest.contains('@'));
    }
}

proof fn lemma_joined_is_masked(list: Seq<Seq<char>>)
    requires
        forall|i: int| 0 <= i < list.len() ==> is_masked(#[trigger] list[i]),
    ensures
        is_masked(joined(list, " "@)),
    decreases list.len(),
{
    reveal_strlit(" ");
    let all = joined(list, " "@);
    if list.len() == 1 {
        assert(is_masked(list[0]));
        assert(all =~= list[0]);
    } else if list.len() > 1 {
        let front = joined(list.drop_last(), " "@);
        let last = list.last();
        assert forall|i: int| 0 <= i < list.drop_last().len() implies is_masked(
            #[trigger] list.drop_last()[i],
        ) by {
            assert(is_masked(list[i]));
        }
        lemma_joined_is_masked(list.drop_last());
        assert(is_masked(list[list.len() - 1]));
        assert(all == front + " "@ + last);
        let m = front.len() as int;
        assert(all[m] == ' ');
        assert forall|k: int| 0 <= k < all.len() && #[trigger] all[k] == '@' implies k >= 3
            && all[k - 1] == '*' && all[k - 2] == '*' && all[k - 3] == '*' && (k <= 4
            || ends_address(all[k - 4]) || ends_address(all[k - 5])) by {
            if k < m {
                assert(front[k] == '@');
            } else {
                let j = k - m - 1;
                assert(last[j] == '@');
                assert(all[m + 1 + (j - 1)] == last[j - 1]);
                if j == 4 {
                    assert(all[k - 5] == ' ');
                } else if j == 3 {
                    assert(all[k - 4] == ' ');
                }
            }
        }
    }
}

/// No full address stands in a redacted text: of what stands before a sign one
/// character stays at most.
pub proof fn lemma_redacted_text_is_masked(s: Seq<char>)
    ensures
        is_masked(redacted(s)),
{
    let list = safe_words(words(s));
    assert forall|i: int| 0 <= i < list.len() implies is_masked(#[trigger] list[i]) by {
        reveal_strlit("[REDACTED]");
        lemma_masked_all(words(s)[i]);
    }
    lemma_joined_is_masked(list);
}

/// Words that are joined with blanks are the words of what they make.
proof fn lemma_words_of_joined(list: Seq<Seq<char>>)
    requires
        forall|i: int|
            0 <= i < list.len() ==> is_solid(#[trigger] list[i]) && list[i].len() > 0,
    ensures
        words(joined(list, " "@)) == list,
    decreases list.len(),
{
    reveal_strlit(" ");
    reveal_with_fuel(nonempty, 2);
    let all = joined(list, " "@);
    if list.len() == 0 {
        assert(split(all, Separator::Space) =~= seq![Seq::<char>::empty()]);
        assert(words(all) =~= list);
    } else {
        let last = list[list.len() - 1];
        let front = list.drop_last();
        assert(is_solid(last));
        assert forall|i: int| 0 <= i < last.len() implies !Separator::Space.cuts(
            #[trigger] last[i],
        ) by {}
        lemma_split_whole(last, Separator::Space);
        assert(words(last) =~= seq![last]);
        assert forall|i: int| 0 <= i < front.len() implies is_solid(#[trigger] front[i])
            && front[i].len() > 0 by {
            assert(front[i] == list[i]);
        }
        if list.len() == 1 {
            assert(words(all) =~= list);
        } else {
            lemma_words_of_joined(front);
            assert(all =~= joined(front, " "@).push(' ') + last);
            lemma_words_apart(joined(front, " "@), last, ' ');
            assert(front + seq![last] =~= list);
        }
    }
}

proof fn lemma_masked_is_solid(word: Seq<char>)
    requires
        is_solid(word),
        word.len() > 0,
    ensures
        is_solid(masked_all(word)),
        masked_all(word).len() > 0,
    decreases word.len(),
{
    if word.contains('@') {
        reveal_strlit("***@");
        lemma_masked_pieces(word);
        let at = first_place(word, '@');
        let rest = word.skip(at + 1);
        let cut = domain_end(rest);
        let head = first_chars(word.take(at), 1);
        let tail = rest.skip(cut);
        assert(is_solid(tail)) by {
            assert forall|i: int| 0 <= i < tail.len() implies !is_space(#[trigger] tail[i]) by {
                assert(tail[i] == word[at + 1 + cut + i]);
            }
        }
        if tail.len() > 0 {
            lemma_masked_is_solid(tail);
        } else {
            lemma_no_place(tail, '@');
        }
        let shown = masked_all(word);
        let mid = rest.take(cut);
        assert forall|i: int| 0 <= i < shown.len() implies !is_space(#[trigger] shown[i]) by {
            let h = head.len() as int;
            if i < h {
                assert(shown[i] == word[0]);
            } else if i < h + 4 {
                assert(shown[i] == "***@"@[i - h]);
            } else if i < h + 4 + cut {
                assert(shown[i] == mid[i - h - 4]);
                assert(mid[i - h - 4] == word[at + 1 + i - h - 4]);
            } else {
                assert(shown[i] == masked_all(tail)[i - h - 4 - cut]);
            }
        }
    } else {
        lemma_no_place(word, '@');
    }
}

/// Redaction goes word by word: what is shown has as many words as the text, in
/// the same order, each what is shown of its word, one blank apart and with none
/// at either end.
pub proof fn lemma_redacted_words(s: Seq<char>)
    ensures
        words(redacted(s)) == safe_words(words(s)),
        words(redacted(s)).len() == words(s).len(),
        redacted(s) == joined(words(redacted(s)), " "@),
        redacted(s).len() > 0 ==> !is_space(redacted(s)[0]) && !is_space(redacted(s).last()),
{
    let list = safe_words(words(s));
    lemma_words_are_solid(s);
    assert forall|i: int| 0 <= i < list.len() implies is_solid(#[trigger] list[i]) && list[i].len()
        > 0 by {
        reveal_strlit("[REDACTED]");
        assert(is_solid("[REDACTED]"@));
        lemma_masked_is_solid(words(s)[i]);
    }
    lemma_words_of_joined(list);
    if list.len() > 0 {
        lemma_joined_ends(list);
        assert(is_solid(list[0]) && is_solid(list[list.len() - 1]));
    }
}

proof fn lemma_joined_ends(list: Seq<Seq<char>>)
    requires
        list.len() > 0,
        forall|i: int| 0 <= i < list.len() ==> (#[trigger] list[i]).len() > 0,
    ensures
        joined(list, " "@).len() > 0,
        joined(list, " "@)[0] == list[0][0],
        joined(list, " "@).last() == list.last().last(),
    decreases list.len(),
{
    if list.len() > 1 {
        let front = list.drop_last();
        assert forall|i: int| 0 <= i < front.len() implies (#[trigger] front[i]).len() > 0 by {
            assert(front[i] == list[i]);
        }
        lemma_joined_ends(front);
        assert(list[list.len() - 1].len() > 0);
    }
}

/// Whether no word of a list reaches over its end.
pub open spec fn ends_in_itself(list: Seq<Seq<char>>) -> bool {
    &&& list.len() >= 1 ==> reach(list[list.len() - 1]) < 1
    &&& list.len() >= 2 ==> reach(list[list.len() - 2]) < 2
}

/// Two texts that white space parts are redacted each for itself, where no word
/// of the first reaches over its end. One without words adds nothing.
pub proof fn lemma_redacted_apart(a: Seq<char>, b: Seq<char>, c: char)
    requires
        is_space(c),
        ends_in_itself(words(a)),
    ensures
        words(a).len() > 0 && words(b).len() > 0 ==> redacted(a.push(c) + b) == redacted(a) + " "@
            + redacted(b),
        words(a).len() == 0 ==> redacted(a.push(c) + b) == redacted(b),
        words(b).len() == 0 ==> redacted(a.push(c) + b) == redacted(a),
{
    let x = words(a);
    let y = words(b);
    lemma_words_apart(a, b, c);
    let all = safe_words(x + y);
    assert forall|i: int| 0 <= i < all.len() implies all[i] == (safe_words(x) + safe_words(
        y,
    ))[i] by {
        if i < x.len() {
            assert(is_reached(x + y, i) == is_reached(x, i));
        } else {
            assert(is_reached(x + y, i) == is_reached(y, i - x.len()));
        }
    }
    assert(all =~= safe_words(x) + safe_words(y));
    if x.len() == 0 {
        assert(all =~= safe_words(y));
    } else if y.len() == 0 {
        assert(all =~= safe_words(x));
    } else {
        lemma_joined_sum(safe_words(x), safe_words(y), " "@);
    }
}

proof fn lemma_safe_word_has_no_marker(word: Seq<char>, mark: Seq<char>)
    requires
        is_marker(mark),
    ensures
        !holds(lowered(safe_word(word)), mark),
{
    reveal_strlit("access_token");
    reveal_strlit("refresh_token");
    reveal_strlit("authorization:");
    reveal_strlit("[REDACTED]");
    let shown = safe_word(word);
    let low = lowered(shown);
    if holds(low, mark) {
        let at = choose|at: int| stands_at(low, mark, at);
        if is_sensitive(word) {
            assert(mark.len() >= 12);
            assert(low.len() == 10);
        } else {
            let needle = shown.subrange(at, at + mark.len());
            assert(lowered(needle) =~= mark) by {
                assert(low.subrange(at, at + mark.len()) =~= lowered(needle));
            }
            assert forall|k: int| 0 <= k < needle.len() implies needle[k] != '*' && needle[k]
                != '@' by {
                assert(lower_char(needle[k]) == mark[k]);
            }
            lemma_masked_shows_the_word(word, needle, at);
            let p = choose|p: int| stands_at(word, needle, p);
            assert(lowered(word).subrange(p, p + mark.len()) =~= lowered(
                word.subrange(p, p + mark.len()),
            ));
            assert(stands_at(lowered(word), mark, p));
        }
    }
}

/// No redacted text holds the name of a token or of an authorization header,
/// whatever the case of its letters. What follows such a name is the matter of
/// the laws below.
pub proof fn lemma_redacted_text_has_no_marker(s: Seq<char>, mark: Seq<char>)
    requires
        is_marker(mark),
    ensures
        !holds(lowered(redacted(s)), mark),
{
    reveal_strlit("access_token");
    reveal_strlit("refresh_token");
    reveal_strlit("authorization:");
    reveal_strlit("[REDACTED]");
    let list = safe_words(words(s));
    lemma_lowered_joined(list);
    let low = Seq::new(list.len(), |i: int| lowered(list[i]));
    if holds(joined(low, " "@), mark) {
        assert(is_solid(mark));
        lemma_solid_text_in_one_word(low, mark);
        let i = choose|i: int| 0 <= i < low.len() && holds(#[trigger] low[i], mark);
        lemma_safe_word_has_no_marker(words(s)[i], mark);
    }
}

/// A text that stands only in words which are hidden stands nowhere in what is
/// shown. The words that replace those are left out, and so is what masking
/// makes of the other words.
pub proof fn lemma_hidden_text_is_not_shown(s: Seq<char>, secret: Seq<char>)
    requires
        secret.len() > 0,
        is_solid(secret),
        !holds("[REDACTED]"@, secret),
        forall|i: int|
            0 <= i < words(s).len() && !is_hidden(words(s), i) ==> !holds(
                masked_all(#[trigger] words(s)[i]),
                secret,
            ),
    ensures
        !holds(redacted(s), secret),
{
    let list = safe_words(words(s));
    if holds(redacted(s), secret) {
        lemma_solid_text_in_one_word(list, secret);
        let i = choose|i: int| 0 <= i < list.len() && holds(#[trigger] list[i], secret);
        assert(!is_hidden(words(s), i));
    }
}

/// The credential of an authorization header is not shown: the second word after
/// the name of the header, its scheme before it, and the word after the scheme
/// of a bearer token, are all hidden.
pub proof fn lemma_header_is_hidden(list: Seq<Seq<char>>, i: int)
    requires
        0 <= i < list.len(),
    ensures
        holds(lowered(list[i]), "authorization:"@) ==> safe_words(list)[i] == "[REDACTED]"@ && (i
            + 1 < list.len() ==> safe_words(list)[i + 1] == "[REDACTED]"@) && (i + 2 < list.len()
            ==> safe_words(list)[i + 2] == "[REDACTED]"@),
        begins(lowered(list[i]), "bearer"@) ==> safe_words(list)[i] == "[REDACTED]"@ && (i + 1
            < list.len() ==> safe_words(list)[i + 1] == "[REDACTED]"@),
{
}

/// The credential of an authorization header does not stand in what is shown of
/// a text, unless it stands in another word too.
pub proof fn lemma_credential_is_not_shown(s: Seq<char>, at: int, credential: Seq<char>)
    requires
        0 <= at < at + 2 < words(s).len(),
        holds(lowered(words(s)[at]), "authorization:"@),
        words(s)[at + 2] == credential,
        !holds("[REDACTED]"@, credential),
        forall|i: int|
            0 <= i < words(s).len() && i != at + 2 && !is_hidden(words(s), i) ==> !holds(
                masked_all(#[trigger] words(s)[i]),
                credential,
            ),
    ensures
        !holds(redacted(s), credential),
{
    lemma_words_are_solid(s);
    assert(is_hidden(words(s), at + 2));
    lemma_hidden_text_is_not_shown(s, credential);
}

/// The token after the scheme of a bearer token does not stand in what is shown
/// of a text, unless it stands in another word too.
pub proof fn lemma_bearer_token_is_not_shown(s: Seq<char>, at: int, token: Seq<char>)
    requires
        0 <= at < at + 1 < words(s).len(),
        begins(lowered(words(s)[at]), "bearer"@),
        words(s)[at + 1] == token,
        !holds("[REDACTED]"@, token),
        forall|i: int|
            0 <= i < words(s).len() && i != at + 1 && !is_hidden(words(s), i) ==> !holds(
                masked_all(#[trigger] words(s)[i]),
                token,
            ),
    ensures
        !holds(redacted(s), token),
{
    lemma_words_are_solid(s);
    assert(is_hidden(words(s), at + 1));
    lemma_hidden_text_is_not_shown(s, token);
}

/// A word with the shape of a key, of a bearer token or of a signed token is
/// replaced as a whole; a word that holds no credential and no sign stays.
pub proof fn lemma_safe_word(word: Seq<char>)
    ensures
        begins(lowered(word), "sk-"@) ==> safe_word(word) == "[REDACTED]"@,
        begins(lowered(word), "bearer"@) ==> safe_word(word) == "[REDACTED]"@,
        looks_signed(word) ==> safe_word(word) == "[REDACTED]"@,
        !is_sensitive(word) && !word.contains('@') ==> safe_word(word) == word,
{
    if !word.contains('@') {
        lemma_no_place(word, '@');
    }
}

/// A word may hold a credential exactly if it names a token or the header, begins
/// like a bearer token or a key, or has the shape of a signed token: three parts by
/// two points, in more than forty bytes. A word that may not, that no word before
/// reaches, and that is no address is shown as it is.
pub proof fn lemma_only_credentials_are_hidden(list: Seq<Seq<char>>, i: int)
    requires
        0 <= i < list.len(),
    ensures
        is_sensitive(list[i]) <==> holds(lowered(list[i]), "access_token"@) || holds(
            lowered(list[i]),
            "refresh_token"@,
        ) || holds(lowered(list[i]), "authorization:"@) || begins(lowered(list[i]), "bearer"@)
            || begins(lowered(list[i]), "sk-"@) || (occurrences(list[i], '.') == 2 && byte_length(
            list[i],
        ) > 40),
        !is_sensitive(list[i]) && !is_reached(list, i) && !list[i].contains('@') ==> safe_words(
            list,
        )[i] == list[i],
        is_sensitive(list[i]) || is_reached(list, i) ==> safe_words(list)[i] == "[REDACTED]"@,
        is_reached(list, i) ==> (i >= 1 && (holds(lowered(list[i - 1]), "authorization:"@) || begins(
            lowered(list[i - 1]),
            "bearer"@,
        ) || holds(lowered(list[i - 1]), "access_token"@) || holds(
            lowered(list[i - 1]),
            "refresh_token"@,
        ))) || (i >= 2 && holds(lowered(list[i - 2]), "authorization:"@)),
        i >= 1 && list[i - 1].len() > 0 && (holds(lowered(list[i - 1]), "access_token"@) || holds(
            lowered(list[i - 1]),
            "refresh_token"@,
        )) && (list[i - 1].last() == ':' || list[i - 1].last() == '=') ==> safe_words(list)[i]
            == "[REDACTED]"@,
{
    lemma_safe_word(list[i]);
}

/// How often a character occurs and how many bytes a text has add up over its
/// characters, of which each has as many bytes as UTF-8 gives it.
pub proof fn lemma_counts_add_up(s: Seq<char>, c: char, other: char)
    ensures
        occurrences(Seq::empty(), c) == 0,
        byte_length(Seq::empty()) == 0,
        occurrences(s.push(c), c) == occurrences(s, c) + 1,
        other != c ==> occurrences(s.push(other), c) == occurrences(s, c),
        c as u32 <= 0x7f ==> byte_length(s.push(c)) == byte_length(s) + 1,
        0x7f < c as u32 <= 0x7ff ==> byte_length(s.push(c)) == byte_length(s) + 2,
        0x7ff < c as u32 <= 0xffff ==> byte_length(s.push(c)) == byte_length(s) + 3,
        0xffff < c as u32 ==> byte_length(s.push(c)) == byte_length(s) + 4,
{
    assert(s.push(c).drop_last() =~= s);
    assert(s.push(other).drop_last() =~= s);
}

/// Of an address the domain stays and as many characters before its sign as are
/// shown; the rest is stars. In a redacted text that is one character.
pub proof fn lemma_address_is_masked(local: Seq<char>, domain: Seq<char>, shown: int)
    requires
        !local.contains('@'),
        !domain.contains('@'),
        0 <= shown,
    ensures
        masked(local.push('@') + domain, shown) == (if local.len() <= shown {
            local
        } else {
            local.take(shown)
        }) + "***@"@ + domain,
        local.len() >= 1 ==> masked_all(local.push('@') + domain) == seq![local[0]] + "***@"@ + domain,
        local.len() == 0 ==> masked_all(local.push('@') + domain) == "***@"@ + domain,
        masked(domain, shown) == "[REDACTED_EMAIL]"@,
        masked_all(domain) == domain,
{
    let word = local.push('@') + domain;
    let n = local.len() as int;
    lemma_place_after(local, domain);
    lemma_no_place(domain, '@');
    assert(word.take(n) =~= local);
    assert(word.skip(n + 1) =~= domain);
    assert(domain.take(domain.len() as int) =~= domain);
    assert(domain.skip(domain.len() as int) =~= Seq::empty());
    let none = Seq::<char>::empty();
    lemma_no_place(none, '@');
    assert(masked_all(none) == none);
    assert(masked_all(domain) == domain);
    let head = first_chars(local, 1);
    assert(masked_all(word) == head + "***@"@ + domain + none);
    assert(head + "***@"@ + domain + none =~= head + "***@"@ + domain);
    if n >= 1 {
        assert(head =~= seq![local[0]]);
    } else {
        assert(head + "***@"@ + domain =~= "***@"@ + domain);
    }
}

proof fn lemma_place_after(local: Seq<char>, domain: Seq<char>)
    requires
        !local.contains('@'),
    ensures
        first_place(local.push('@') + domain, '@') == local.len(),
    decreases local.len(),
{
    let word = local.push('@') + domain;
    if local.len() > 0 {
        assert(word[0] == local[0]);
        assert(local.contains(local[0]));
        let rest = local.drop_first();
        assert(word.drop_first() =~= rest.push('@') + domain);
        assert forall|i: int| 0 <= i < rest.len() implies rest[i] != '@' by {
            assert(local.contains(local[i + 1]));
        }
        lemma_place_after(rest, domain);
    } else {
        assert(word[0] == '@');
    }
}

/// A line of the log begins with its time and ends with what redaction leaves of the
/// message, with the level between.
pub proof fn lemma_log_line(stamp: Seq<char>, level: Seq<char>, message: Seq<char>)
    ensures
        begins(log_line(stamp, level, message), stamp),
        ends(log_line(stamp, level, message), redacted(message)),
        holds(log_line(stamp, level, message), level),
{
    let line = log_line(stamp, level, message);
    let tail = redacted(message);
    assert(line.subrange(0, stamp.len() as int) =~= stamp);
    assert(line.subrange(line.len() - tail.len(), line.len() as int) =~= tail);
    let at: int = stamp.len() + " ["@.len() as int;
    assert(line.subrange(at, at + level.len()) =~= level);
    assert(stands_at(line, level, at));
}

} // verus!
