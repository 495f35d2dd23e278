//! Thread, session and operation identifiers: UUIDs held as their 128-bit values.

use vstd::prelude::*;
use crate::text::push_char;

verus! {

/// A fresh random (version 4) UUID, as its 128-bit value.
///
/// Calls `uuid::Uuid::new_v4` and `Uuid::as_u128`. The value is random; the contract
/// claims only the version and variant bits that `new_v4` sets.
#[verifier::external_body]
pub(crate) fn new_random_id() -> (r: u128)
    ensures
        r & 0xF000_C000_0000_0000_0000u128 == 0x4000_8000_0000_0000_0000u128,
{
    uuid::Uuid::new_v4().as_u128()
}

/// Lower-case hexadecimal digit of a value below 16.
pub open spec fn hex_digit(n: u128) -> char {
    "0123456789abcdef"@[n as int]
}

/// The `i`-th hexadecimal digit of `id`, counting from the most significant one.
pub open spec fn nibble(id: u128, i: int) -> u128 {
    (id >> ((4 * (31 - i)) as u128)) & 15
}

/// The hexadecimal digits `a..b` of `id`.
pub open spec fn hex_group(id: u128, a: int, b: int) -> Seq<char> {
    Seq::new((b - a) as nat, |k: int| hex_digit(nibble(id, a + k)))
}

/// The hyphenated lower-case form of a UUID (`8-4-4-4-12` hex digits), as `Uuid`'s
/// `Display` writes it.
pub open spec fn uuid_text(id: u128) -> Seq<char> {
    hex_group(id, 0, 8) + "-"@ + hex_group(id, 8, 12) + "-"@ + hex_group(id, 12, 16) + "-"@
        + hex_group(id, 16, 20) + "-"@ + hex_group(id, 20, 32)
}

fn push_hex_group(out: &mut String, id: u128, a: usize, b: usize)
    requires
        a <= b <= 32,
    ensures
        final(out)@ == old(out)@ + hex_group(id, a as int, b as int),
{
    let digits = "0123456789abcdef";
    proof {
        reveal_strlit("0123456789abcdef");
    }
    let ghost start = out@;
    let mut i = a;
    while i < b
        invariant
            a <= i <= b <= 32,
            digits@ == "0123456789abcdef"@,
            digits@.len() == 16,
            out@ == start + hex_group(id, a as int, i as int),
        decreases b - i,
    {
        let shift: u128 = (4 * (31 - i)) as u128;
        let n: u128 = (id >> shift) & 15;
        assert(n < 16) by (bit_vector)
            requires
                n == (id >> shift) & 15,
        ;
        let c = digits.get_char(n as usize);
        push_char(out, c);
        i = i + 1;
        assert(out@ =~= start + hex_group(id, a as int, i as int));
    }
}

/// The hyphenated lower-case text of a UUID.
pub fn uuid_to_string(id: u128) -> (r: String)
    ensures
        r@ == uuid_text(id),
{
    let mut out = String::new();
    push_hex_group(&mut out, id, 0, 8);
    out.append("-");
    push_hex_group(&mut out, id, 8, 12);
    out.append("-");
    push_hex_group(&mut out, id, 12, 16);
    out.append("-");
    push_hex_group(&mut out, id, 16, 20);
    out.append("-");
    push_hex_group(&mut out, id, 20, 32);
    out
}

/// The value of a lower-case hexadecimal digit; 16 for any other character.
pub open spec fn hex_value(c: char) -> u128 {
    if c == '0' {
        0
    } else if c == '1' {
        1
    } else if c == '2' {
        2
    } else if c == '3' {
        3
    } else if c == '4' {
        4
    } else if c == '5' {
        5
    } else if c == '6' {
        6
    } else if c == '7' {
        7
    } else if c == '8' {
        8
    } else if c == '9' {
        9
    } else if c == 'a' {
        10
    } else if c == 'b' {
        11
    } else if c == 'c' {
        12
    } else if c == 'd' {
        13
    } else if c == 'e' {
        14
    } else if c == 'f' {
        15
    } else {
        16
    }
}

proof fn lemma_hex_digit_value(n: u128)
    requires
        n < 16,
    ensures
        hex_value(hex_digit(n)) == n,
{
    reveal_strlit("0123456789abcdef");
}

proof fn lemma_nibble_bound(id: u128, i: int)
    requires
        0 <= i < 32,
    ensures
        nibble(id, i) < 16,
{
    let s: u128 = (4 * (31 - i)) as u128;
    assert((id >> s) & 15 < 16) by (bit_vector);
}

/// Distinct ids are written differently: the hyphenated text determines the id.
pub proof fn lemma_uuid_text_injective(a: u128, b: u128)
    requires
        uuid_text(a) == uuid_text(b),
    ensures
        a == b,
{
    reveal_strlit("-");
    let ta = uuid_text(a);
    let tb = uuid_text(b);
    assert forall|i: int| 0 <= i < 32 implies nibble(a, i) == nibble(b, i) by {
        let pos = if i < 8 {
            i
        } else if i < 12 {
            i + 1
        } else if i < 16 {
            i + 2
        } else if i < 20 {
            i + 3
        } else {
            i + 4
        };
        assert(ta[pos] == hex_digit(nibble(a, i)));
        assert(tb[pos] == hex_digit(nibble(b, i)));
        lemma_nibble_bound(a, i);
        lemma_nibble_bound(b, i);
        lemma_hex_digit_value(nibble(a, i));
        lemma_hex_digit_value(nibble(b, i));
    }
    assert(nibble(a, 0) == nibble(b, 0));
    assert(nibble(a, 1) == nibble(b, 1));
    assert(nibble(a, 2) == nibble(b, 2));
    assert(nibble(a, 3) == nibble(b, 3));
    assert(nibble(a, 4) == nibble(b, 4));
    assert(nibble(a, 5) == nibble(b, 5));
    assert(nibble(a, 6) == nibble(b, 6));
    assert(nibble(a, 7) == nibble(b, 7));
    assert(nibble(a, 8) == nibble(b, 8));
    assert(nibble(a, 9) == nibble(b, 9));
    assert(nibble(a, 10) == nibble(b, 10));
    assert(nibble(a, 11) == nibble(b, 11));
    assert(nibble(a, 12) == nibble(b, 12));
    assert(nibble(a, 13) == nibble(b, 13));
    assert(nibble(a, 14) == nibble(b, 14));
    assert(nibble(a, 15) == nibble(b, 15));
    assert(nibble(a, 16) == nibble(b, 16));
    assert(nibble(a, 17) == nibble(b, 17));
    assert(nibble(a, 18) == nibble(b, 18));
    assert(nibble(a, 19) == nibble(b, 19));
    assert(nibble(a, 20) == nibble(b, 20));
    assert(nibble(a, 21) == nibble(b, 21));
    assert(nibble(a, 22) == nibble(b, 22));
    assert(nibble(a, 23) == nibble(b, 23));
    assert(nibble(a, 24) == nibble(b, 24));
    assert(nibble(a, 25) == nibble(b, 25));
    assert(nibble(a, 26) == nibble(b, 26));
    assert(nibble(a, 27) == nibble(b, 27));
    assert(nibble(a, 28) == nibble(b, 28));
    assert(nibble(a, 29) == nibble(b, 29));
    assert(nibble(a, 30) == nibble(b, 30));
    assert(nibble(a, 31) == nibble(b, 31));
    assert(a == b) by (bit_vector)
        requires
            (a >> 124u128) & 15u128 == (b >> 124u128) & 15u128,
            (a >> 120u128) & 15u128 == (b >> 120u128) & 15u128,
            (a >> 116u128) & 15u128 == (b >> 116u128) & 15u128,
            (a >> 112u128) & 15u128 == (b >> 112u128) & 15u128,
            (a >> 108u128) & 15u128 == (b >> 108u128) & 15u128,
            (a >> 104u128) & 15u128 == (b >> 104u128) & 15u128,
            (a >> 100u128) & 15u128 == (b >> 100u128) & 15u128,
            (a >> 96u128) & 15u128 == (b >> 96u128) & 15u128,
            (a >> 92u128) & 15u128 == (b >> 92u128) & 15u128,
            (a >> 88u128) & 15u128 == (b >> 88u128) & 15u128,
            (a >> 84u128) & 15u128 == (b >> 84u128) & 15u128,
            (a >> 80u128) & 15u128 == (b >> 80u128) & 15u128,
            (a >> 76u128) & 15u128 == (b >> 76u128) & 15u128,
            (a >> 72u128) & 15u128 == (b >> 72u128) & 15u128,
            (a >> 68u128) & 15u128 == (b >> 68u128) & 15u128,
            (a >> 64u128) & 15u128 == (b >> 64u128) & 15u128,
            (a >> 60u128) & 15u128 == (b >> 60u128) & 15u128,
            (a >> 56u128) & 15u128 == (b >> 56u128) & 15u128,
            (a >> 52u128) & 15u128 == (b >> 52u128) & 15u128,
            (a >> 48u128) & 15u128 == (b >> 48u128) & 15u128,
            (a >> 44u128) & 15u128 == (b >> 44u128) & 15u128,
            (a >> 40u128) & 15u128 == (b >> 40u128) & 15u128,
            (a >> 36u128) & 15u128 == (b >> 36u128) & 15u128,
            (a >> 32u128) & 15u128 == (b >> 32u128) & 15u128,
            (a >> 28u128) & 15u128 == (b >> 28u128) & 15u128,
            (a >> 24u128) & 15u128 == (b >> 24u128) & 15u128,
            (a >> 20u128) & 15u128 == (b >> 20u128) & 15u128,
            (a >> 16u128) & 15u128 == (b >> 16u128) & 15u128,
            (a >> 12u128) & 15u128 == (b >> 12u128) & 15u128,
            (a >> 8u128) & 15u128 == (b >> 8u128) & 15u128,
            (a >> 4u128) & 15u128 == (b >> 4u128) & 15u128,
            (a >> 0u128) & 15u128 == (b >> 0u128) & 15u128,
    ;
}

/// The UUID a text denotes, if it denotes one.
pub uninterp spec fn parsed_uuid(text: Seq<char>) -> Option<u128>;

/// Parses a UUID.
///
/// Calls `uuid::Uuid::parse_str` and `Uuid::as_u128`. Which texts it accepts (the
/// simple, hyphenated, URN and braced forms, in either case) is named `parsed_uuid`; the
/// contract also claims what the crate documents of the hyphenated form that `Display`
/// writes: it parses back to the same value.
#[verifier::external_body]
pub(crate) fn parse_uuid(text: &str) -> (r: Option<u128>)
    ensures
        r == parsed_uuid(text@),
        forall|id: u128| text@ == uuid_text(id) ==> r == Some(id),
{
    uuid::Uuid::parse_str(text).ok().map(|u| u.as_u128())
}

/// The thread ids among texts that are UUIDs, in order; other texts are skipped.
pub fn thread_ids_from_texts(texts: &Vec<String>) -> (r: Vec<u128>)
    ensures
        r@ == texts@.filter_map(|t: String| parsed_uuid(t@)),
        forall|j: int, id: u128| #![trigger texts@[j], uuid_text(id)] 0 <= j < texts@.len() && texts@[j]@ == uuid_text(id) ==> parsed_uuid(texts@[j]@) == Some(id),
{
    let ghost f = |t: String| parsed_uuid(t@);
    let mut out: Vec<u128> = Vec::new();
    let mut i: usize = 0;
    while i < texts.len()
        invariant
            i <= texts@.len(),
            f == (|t: String| parsed_uuid(t@)),
            out@ == texts@.take(i as int).filter_map(f),
            forall|j: int, id: u128| #![trigger texts@[j], uuid_text(id)] 0 <= j < i && texts@[j]@ == uuid_text(id) ==> parsed_uuid(texts@[j]@) == Some(id),
        decreases texts@.len() - i,
    {
        proof {
            texts@.lemma_filter_map_take_succ(f, i as int);
        }
        match parse_uuid(texts[i].as_str()) {
            Some(id) => {
                out.push(id);
            },
            None => {},
        }
        i = i + 1;
    }
    assert(texts@.take(texts@.len() as int) =~= texts@);
    out
}

} // verus!
