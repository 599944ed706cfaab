//! Account identifiers: 128-bit numbers, made and written by `uuid`.

use vstd::prelude::*;

verus! {

/// The identifier that stands for no account.
pub const NIL: u128 = 0;

/// The hexadecimal digit of a number below sixteen.
pub open spec fn hex_digit(d: u128) -> char {
    if d < 10 {
        (48 + d) as u8 as char
    } else {
        (87 + d) as u8 as char
    }
}

/// The number of digits before a place of a written identifier.
pub open spec fn digits_before(i: int) -> int {
    if i <= 8 {
        i
    } else if i <= 13 {
        i - 1
    } else if i <= 18 {
        i - 2
    } else if i <= 23 {
        i - 3
    } else {
        i - 4
    }
}

/// Whether a written identifier has a hyphen at a place.
pub open spec fn is_hyphen_place(i: int) -> bool {
    i == 8 || i == 13 || i == 18 || i == 23
}

/// The hexadecimal digit of an identifier that stands after `k` others.
pub open spec fn nibble(id: u128, k: int) -> u128 {
    (id >> ((124 - 4 * k) as u128)) & 0xf
}

/// An identifier in words: five groups of lower case digits with hyphens between.
pub open spec fn id_words(id: u128) -> Seq<char> {
    Seq::new(
        36,
        |i: int|
            if is_hyphen_place(i) {
                '-'
            } else {
                hex_digit(nibble(id, digits_before(i)))
            },
    )
}

/// `Display` of `uuid::Uuid`: the hyphenated form in lower case.
#[verifier::external_body]
pub(crate) fn id_text(id: u128) -> (r: String)
    ensures
        r@ == id_words(id),
{
    uuid::Uuid::from_u128(id).to_string()
}

/// `uuid::Uuid::new_v4`: a random number with the version and variant bits set.
#[verifier::external_body]
pub(crate) fn random_id() -> (r: u128)
    ensures
        (r >> 76) & 0xf == 4,
        (r >> 62) & 0x3 == 2,
{
    uuid::Uuid::new_v4().as_u128()
}

/// A fresh identifier, which is never the one that stands for no account.
pub fn new_id() -> (r: u128)
    ensures
        r != NIL,
        (r >> 76) & 0xf == 4,
        (r >> 62) & 0x3 == 2,
{
    let r: u128 = random_id();
    assert((r >> 76) & 0xf == 4 ==> r != 0) by (bit_vector);
    r
}

/// An identifier in words.
pub fn write_id(id: u128) -> (r: String)
    ensures
        r@ == id_words(id),
{
    id_text(id)
}

proof fn lemma_nibbles_determine(a: u128, b: u128)
    requires
        forall|k: int| 0 <= k < 32 ==> #[trigger] nibble(a, k) == nibble(b, k),
    ensures
        a == b,
{
    assert(nibble(a, 0) == nibble(b, 0) && nibble(a, 1) == nibble(b, 1) && nibble(a, 2) == nibble(b, 2)
        && nibble(a, 3) == nibble(b, 3) && nibble(a, 4) == nibble(b, 4) && nibble(a, 5) == nibble(b, 5)
        && nibble(a, 6) == nibble(b, 6) && nibble(a, 7) == nibble(b, 7));
    assert(nibble(a, 8) == nibble(b, 8) && nibble(a, 9) == nibble(b, 9) && nibble(a, 10) == nibble(b, 10)
        && nibble(a, 11) == nibble(b, 11) && nibble(a, 12) == nibble(b, 12) && nibble(a, 13) == nibble(b, 13)
        && nibble(a, 14) == nibble(b, 14) && nibble(a, 15) == nibble(b, 15));
    assert(nibble(a, 16) == nibble(b, 16) && nibble(a, 17) == nibble(b, 17) && nibble(a, 18) == nibble(b, 18)
        && nibble(a, 19) == nibble(b, 19) && nibble(a, 20) == nibble(b, 20) && nibble(a, 21) == nibble(b, 21)
        && nibble(a, 22) == nibble(b, 22) && nibble(a, 23) == nibble(b, 23));
    assert(nibble(a, 24) == nibble(b, 24) && nibble(a, 25) == nibble(b, 25) && nibble(a, 26) == nibble(b, 26)
        && nibble(a, 27) == nibble(b, 27) && nibble(a, 28) == nibble(b, 28) && nibble(a, 29) == nibble(b, 29)
        && nibble(a, 30) == nibble(b, 30) && nibble(a, 31) == nibble(b, 31));
    assert(a == b) by (bit_vector)
        requires
            (a >> 124u128) & 0xf == (b >> 124u128) & 0xf,
            (a >> 120u128) & 0xf == (b >> 120u128) & 0xf,
            (a >> 116u128) & 0xf == (b >> 116u128) & 0xf,
            (a >> 112u128) & 0xf == (b >> 112u128) & 0xf,
            (a >> 108u128) & 0xf == (b >> 108u128) & 0xf,
            (a >> 104u128) & 0xf == (b >> 104u128) & 0xf,
            (a >> 100u128) & 0xf == (b >> 100u128) & 0xf,
            (a >> 96u128) & 0xf == (b >> 96u128) & 0xf,
            (a >> 92u128) & 0xf == (b >> 92u128) & 0xf,
            (a >> 88u128) & 0xf == (b >> 88u128) & 0xf,
            (a >> 84u128) & 0xf == (b >> 84u128) & 0xf,
            (a >> 80u128) & 0xf == (b >> 80u128) & 0xf,
            (a >> 76u128) & 0xf == (b >> 76u128) & 0xf,
            (a >> 72u128) & 0xf == (b >> 72u128) & 0xf,
            (a >> 68u128) & 0xf == (b >> 68u128) & 0xf,
            (a >> 64u128) & 0xf == (b >> 64u128) & 0xf,
            (a >> 60u128) & 0xf == (b >> 60u128) & 0xf,
            (a >> 56u128) & 0xf == (b >> 56u128) & 0xf,
            (a >> 52u128) & 0xf == (b >> 52u128) & 0xf,
            (a >> 48u128) & 0xf == (b >> 48u128) & 0xf,
            (a >> 44u128) & 0xf == (b >> 44u128) & 0xf,
            (a >> 40u128) & 0xf == (b >> 40u128) & 0xf,
            (a >> 36u128) & 0xf == (b >> 36u128) & 0xf,
            (a >> 32u128) & 0xf == (b >> 32u128) & 0xf,
            (a >> 28u128) & 0xf == (b >> 28u128) & 0xf,
            (a >> 24u128) & 0xf == (b >> 24u128) & 0xf,
            (a >> 20u128) & 0xf == (b >> 20u128) & 0xf,
            (a >> 16u128) & 0xf == (b >> 16u128) & 0xf,
            (a >> 12u128) & 0xf == (b >> 12u128) & 0xf,
            (a >> 8u128) & 0xf == (b >> 8u128) & 0xf,
            (a >> 4u128) & 0xf == (b >> 4u128) & 0xf,
            (a >> 0u128) & 0xf == (b >> 0u128) & 0xf,
    ;
}

/// The place at which the digit after `k` others stands.
spec fn place_of(k: int) -> int {
    if k < 8 {
        k
    } else if k < 12 {
        k + 1
    } else if k < 16 {
        k + 2
    } else if k < 20 {
        k + 3
    } else {
        k + 4
    }
}

/// Different identifiers are written differently.
pub proof fn lemma_ids_are_written_apart(a: u128, b: u128)
    ensures
        id_words(a) == id_words(b) <==> a == b,
{
    if id_words(a) == id_words(b) {
        assert forall|k: int| 0 <= k < 32 implies #[trigger] nibble(a, k) == nibble(b, k) by {
            let i = place_of(k);
            assert(digits_before(i) == k);
            assert(id_words(a)[i] == id_words(b)[i]);
            let x = nibble(a, k);
            let y = nibble(b, k);
            let s = (124 - 4 * k) as u128;
            assert((a >> s) & 0xf < 16) by (bit_vector);
            assert((b >> s) & 0xf < 16) by (bit_vector);
        }
        lemma_nibbles_determine(a, b);
    }
}

/// An identifier is written with 36 characters: hyphens at four places, and elsewhere
/// its hexadecimal digits in lower case, the highest first.
pub proof fn lemma_form_of_ids(id: u128, i: int, k: int)
    requires
        0 <= i < 36,
        (0 <= k < 8 && i == k) || (8 <= k < 12 && i == k + 1) || (12 <= k < 16 && i == k + 2) || (16
            <= k < 20 && i == k + 3) || (20 <= k < 32 && i == k + 4),
    ensures
        id_words(id).len() == 36,
        id_words(id)[8] == '-' && id_words(id)[13] == '-',
        id_words(id)[18] == '-' && id_words(id)[23] == '-',
        ({
            let digit = (id >> ((124 - 4 * k) as u128)) & 0xf;
            let c = id_words(id)[i] as int;
            &&& digit < 10 ==> c == '0' as int + digit
            &&& digit >= 10 ==> c == 'a' as int + (digit - 10)
        }),
{
    let s = (124 - 4 * k) as u128;
    assert((id >> s) & 0xf < 16) by (bit_vector);
}

} // verus!
