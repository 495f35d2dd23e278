//! Decimal text of step numbers: formatting, parsing and ordering.

use vstd::prelude::*;
use crate::text::push_char;

verus! {

broadcast use vstd::seq_lib::to_multiset_build, vstd::seq_lib::to_multiset_insert;

/// The decimal digit character of a value below 10.
pub open spec fn digit_char(d: nat) -> char {
    "0123456789"@[d as int]
}

/// The value of a decimal digit character.
pub open spec fn digit_value(c: char) -> nat {
    (c as int - '0' as int) as nat
}

pub open spec fn is_digit(c: char) -> bool {
    '0' <= c && c <= '9'
}

/// Decimal text of `n`, without leading zeros ("0" for zero).
pub open spec fn decimal(n: nat) -> Seq<char>
    decreases n,
{
    if n < 10 {
        seq![digit_char(n)]
    } else {
        decimal(n / 10) + seq![digit_char(n % 10)]
    }
}

/// Decimal text of `n` padded on the left with zeros to at least `width` characters.
pub open spec fn padded_decimal(n: nat, width: nat) -> Seq<char> {
    if decimal(n).len() < width {
        Seq::new((width - decimal(n).len()) as nat, |i: int| '0') + decimal(n)
    } else {
        decimal(n)
    }
}

/// The value of a string of decimal digits.
pub open spec fn digits_value(s: Seq<char>) -> nat
    decreases s.len(),
{
    if s.len() == 0 {
        0
    } else {
        digits_value(s.drop_last()) * 10 + digit_value(s.last())
    }
}

pub open spec fn all_digits(s: Seq<char>) -> bool {
    forall|i: int| 0 <= i < s.len() ==> is_digit(#[trigger] s[i])
}

/// The text after an optional leading `+`.
pub open spec fn unsigned_digits(s: Seq<char>) -> Seq<char> {
    if s.len() > 0 && s[0] == '+' {
        s.drop_first()
    } else {
        s
    }
}

/// What `str::parse::<u64>` accepts: an optional `+` and at least one decimal digit,
/// with a value that fits in 64 bits.
pub open spec fn parse_u64_spec(s: Seq<char>) -> Option<u64> {
    let d = unsigned_digits(s);
    if d.len() > 0 && all_digits(d) && digits_value(d) <= u64::MAX {
        Some(digits_value(d) as u64)
    } else {
        None
    }
}

/// Appends the decimal text of `n`.
pub fn push_decimal(out: &mut String, n: u64)
    ensures
        final(out)@ == old(out)@ + decimal(n as nat),
    decreases n,
{
    let digits = "0123456789";
    proof {
        reveal_strlit("0123456789");
    }
    if n >= 10 {
        push_decimal(out, n / 10);
    }
    let c = digits.get_char((n % 10) as usize);
    push_char(out, c);
    assert(out@ =~= old(out)@ + decimal(n as nat));
}

/// Decimal text of `n`.
pub fn u64_to_decimal(n: u64) -> (r: String)
    ensures
        r@ == decimal(n as nat),
{
    let mut s = String::new();
    push_decimal(&mut s, n);
    assert(s@ =~= decimal(n as nat));
    s
}

/// Decimal text of `n`, zero-padded to `width` characters (as `{:0width$}` writes it).
pub fn u64_to_padded_decimal(n: u64, width: usize) -> (r: String)
    ensures
        r@ == padded_decimal(n as nat, width as nat),
{
    let digits = u64_to_decimal(n);
    let len = digits.as_str().unicode_len();
    if len < width {
        let mut s = String::new();
        let mut i: usize = 0;
        while i < width - len
            invariant
                len < width,
                i <= width - len,
                s@ == Seq::new(i as nat, |k: int| '0'),
            decreases width - len - i,
        {
            push_char(&mut s, '0');
            i = i + 1;
            assert(s@ =~= Seq::new(i as nat, |k: int| '0'));
        }
        s.append(digits.as_str());
        s
    } else {
        digits
    }
}

/// Parses a `u64` as `str::parse::<u64>` does.
pub fn parse_u64(s: &str) -> (r: Option<u64>)
    ensures
        r == parse_u64_spec(s@),
{
    let n = s.unicode_len();
    let start: usize = if n > 0 && s.get_char(0) == '+' { 1 } else { 0 };
    let ghost d = unsigned_digits(s@);
    assert(d =~= s@.skip(start as int));
    if start == n {
        return None;
    }
    let mut acc: u64 = 0;
    let mut i = start;
    while i < n
        invariant
            n == s@.len(),
            start < n,
            d == s@.skip(start as int),
            d == unsigned_digits(s@),
            start <= i <= n,
            all_digits(d.take(i - start)),
            acc == digits_value(d.take(i - start)),
        decreases n - i,
    {
        let c = s.get_char(i);
        if !('0' <= c && c <= '9') {
            assert(d[i - start] == c);
            assert(!all_digits(d));
            assert(parse_u64_spec(s@) is None);
            return None;
        }
        let v = (c as u32 - '0' as u32) as u64;
        assert(d.take(i + 1 - start).drop_last() =~= d.take(i - start));
        assert(d.take(i + 1 - start).last() == c);
        match acc.checked_mul(10) {
            None => {
                proof {
                    if all_digits(d) {
                        lemma_digits_value_prefix_monotone(d, i + 1 - start);
                    }
                }
                return None;
            },
            Some(m) => match m.checked_add(v) {
                None => {
                    proof {
                        if all_digits(d) {
                            lemma_digits_value_prefix_monotone(d, i + 1 - start);
                        }
                    }
                    return None;
                },
                Some(a) => {
                    acc = a;
                },
            },
        }
        i = i + 1;
    }
    assert(d.take(n - start) =~= d);
    Some(acc)
}

/// A longer digit prefix never has a smaller value.
proof fn lemma_digits_value_prefix_monotone(d: Seq<char>, k: int)
    requires
        0 <= k <= d.len(),
        all_digits(d),
    ensures
        digits_value(d.take(k)) <= digits_value(d),
    decreases d.len() - k,
{
    if k < d.len() {
        lemma_digits_value_prefix_monotone(d, k + 1);
        assert(d.take(k + 1).drop_last() =~= d.take(k));
    } else {
        assert(d.take(k) =~= d);
    }
}

/// The digit character of `d` has value `d`.
proof fn lemma_digit_char(d: nat)
    requires
        d < 10,
    ensures
        is_digit(digit_char(d)),
        digit_value(digit_char(d)) == d,
{
    reveal_strlit("0123456789");
    if d == 0 {
        assert(digit_char(d) == '0');
    } else if d == 1 {
        assert(digit_char(d) == '1');
    } else if d == 2 {
        assert(digit_char(d) == '2');
    } else if d == 3 {
        assert(digit_char(d) == '3');
    } else if d == 4 {
        assert(digit_char(d) == '4');
    } else if d == 5 {
        assert(digit_char(d) == '5');
    } else if d == 6 {
        assert(digit_char(d) == '6');
    } else if d == 7 {
        assert(digit_char(d) == '7');
    } else if d == 8 {
        assert(digit_char(d) == '8');
    } else {
        assert(digit_char(d) == '9');
    }
}

/// The decimal text of `n` is a non-empty run of digits whose value is `n`.
pub proof fn lemma_decimal_digits(n: nat)
    ensures
        decimal(n).len() >= 1,
        all_digits(decimal(n)),
        digits_value(decimal(n)) == n,
    decreases n,
{
    if n < 10 {
        lemma_digit_char(n);
        assert(decimal(n).drop_last() =~= Seq::<char>::empty());
        assert(decimal(n).last() == digit_char(n));
        assert(digits_value(decimal(n).drop_last()) == 0);
        assert(digits_value(decimal(n)) == digits_value(decimal(n).drop_last()) * 10 + digit_value(decimal(n).last()));
    } else {
        lemma_decimal_digits(n / 10);
        lemma_digit_char(n % 10);
        let d = decimal(n);
        assert(d.drop_last() =~= decimal(n / 10));
        assert(d.last() == digit_char(n % 10));
        assert((n / 10) * 10 + n % 10 == n) by (nonlinear_arith);
        assert(digits_value(d) == digits_value(d.drop_last()) * 10 + digit_value(d.last()));
        assert forall|i: int| 0 <= i < d.len() implies is_digit(#[trigger] d[i]) by {
            if i < d.len() - 1 {
                assert(d[i] == decimal(n / 10)[i]);
            }
        }
    }
}

/// Leading zeros do not change the value of a digit string.
proof fn lemma_leading_zeros(k: nat, d: Seq<char>)
    ensures
        digits_value(Seq::new(k, |i: int| '0') + d) == digits_value(d),
    decreases d.len() + k,
{
    let z = Seq::new(k, |i: int| '0');
    if d.len() == 0 {
        assert(z + d =~= z);
        if k > 0 {
            lemma_leading_zeros((k - 1) as nat, d);
            assert(z.drop_last() =~= Seq::new((k - 1) as nat, |i: int| '0'));
            assert(z.drop_last() + d =~= z.drop_last());
        }
    } else {
        lemma_leading_zeros(k, d.drop_last());
        assert((z + d).drop_last() =~= z + d.drop_last());
    }
}

/// Parsing the decimal text of a number, zero-padded or not, gives the number back.
pub proof fn lemma_parse_padded_decimal(n: u64, width: nat)
    ensures
        parse_u64_spec(padded_decimal(n as nat, width)) == Some(n),
        parse_u64_spec(decimal(n as nat)) == Some(n),
{
    lemma_decimal_digits(n as nat);
    let d = decimal(n as nat);
    let p = padded_decimal(n as nat, width);
    if d.len() < width {
        let k = (width - d.len()) as nat;
        lemma_leading_zeros(k, d);
        assert forall|i: int| 0 <= i < p.len() implies is_digit(#[trigger] p[i]) by {
            if i >= k {
                assert(p[i] == d[i - k]);
            }
        }
    }
    assert(unsigned_digits(p) == p);
    assert(unsigned_digits(d) == d);
}

/// Whether a sequence is in non-decreasing order.
pub open spec fn sorted(s: Seq<u64>) -> bool {
    forall|i: int, j: int| 0 <= i <= j < s.len() ==> s[i] <= s[j]
}

/// Whether a sequence is in strictly increasing order.
pub open spec fn strictly_sorted(s: Seq<u64>) -> bool {
    forall|i: int, j: int| 0 <= i < j < s.len() ==> s[i] < s[j]
}

/// Sorts step numbers in ascending order.
pub fn sort_steps(steps: Vec<u64>) -> (r: Vec<u64>)
    ensures
        sorted(r@),
        r@.to_multiset() == steps@.to_multiset(),
{
    let mut out: Vec<u64> = Vec::new();
    let mut i: usize = 0;
    assert(steps@.take(0) =~= out@);
    while i < steps.len()
        invariant
            i <= steps@.len(),
            sorted(out@),
            out@.to_multiset() == steps@.take(i as int).to_multiset(),
        decreases steps@.len() - i,
    {
        let x = steps[i];
        let mut j: usize = 0;
        while j < out.len() && out[j] <= x
            invariant
                j <= out@.len(),
                forall|k: int| 0 <= k < j ==> out@[k] <= x,
            decreases out@.len() - j,
        {
            j = j + 1;
        }
        let ghost before = out@;
        out.insert(j, x);
        assert(out@ == before.insert(j as int, x));
        assert(sorted(out@)) by {
            assert forall|a: int, b: int| 0 <= a <= b < out@.len() implies out@[a] <= out@[b] by {
                if a < j && b > j {
                    assert(before[a] <= x);
                }
            }
        }
        assert(steps@.take(i + 1) =~= steps@.take(i as int).push(x));
        i = i + 1;
    }
    assert(steps@.take(steps@.len() as int) =~= steps@);
    out
}

/// Sorts step numbers in ascending order and removes repeats.
pub fn sort_dedup_steps(steps: Vec<u64>) -> (r: Vec<u64>)
    ensures
        strictly_sorted(r@),
        r@.to_set() == steps@.to_set(),
{
    let ghost initial = steps@;
    let sorted_steps = sort_steps(steps);
    proof {
        assert forall|x: u64| sorted_steps@.contains(x) <==> initial.contains(x) by {
            sorted_steps@.to_multiset_ensures();
            initial.to_multiset_ensures();
            assert(sorted_steps@.to_multiset().count(x) == initial.to_multiset().count(x));
        }
    }
    let mut out: Vec<u64> = Vec::new();
    let mut i: usize = 0;
    while i < sorted_steps.len()
        invariant
            i <= sorted_steps@.len(),
            sorted(sorted_steps@),
            strictly_sorted(out@),
            out@.len() > 0 ==> i > 0 && out@.last() == sorted_steps@[i - 1],
            out@.len() == 0 ==> i == 0,
            forall|x: u64| out@.contains(x) <==> sorted_steps@.take(i as int).contains(x),
        decreases sorted_steps@.len() - i,
    {
        let x = sorted_steps[i];
        let ghost prev = out@;
        let ghost t0 = sorted_steps@.take(i as int);
        let ghost t1 = sorted_steps@.take(i + 1);
        assert(t1 =~= t0.push(x));
        if out.len() == 0 || out[out.len() - 1] != x {
            out.push(x);
            assert(out@ =~= prev.push(x));
            assert forall|y: u64| out@.contains(y) <==> t1.contains(y) by {
                if t1.contains(y) && y != x {
                    let k = choose|k: int| 0 <= k < t1.len() && #[trigger] t1[k] == y;
                    assert(t0[k] == y);
                    assert(t0.contains(y));
                    assert(prev.contains(y));
                    let j = choose|j: int| 0 <= j < prev.len() && #[trigger] prev[j] == y;
                    assert(out@[j] == y);
                }
                if out@.contains(y) && y != x {
                    let k = choose|k: int| 0 <= k < out@.len() && #[trigger] out@[k] == y;
                    assert(prev[k] == y);
                    assert(prev.contains(y));
                    assert(t0.contains(y));
                    let m = choose|m: int| 0 <= m < t0.len() && #[trigger] t0[m] == y;
                    assert(t1[m] == y);
                }
                if y == x {
                    assert(out@[out@.len() - 1] == y);
                    assert(t1[t1.len() - 1] == y);
                }
            }
        } else {
            assert forall|y: u64| out@.contains(y) <==> t1.contains(y) by {
                if t1.contains(y) && y != x {
                    let k = choose|k: int| 0 <= k < t1.len() && #[trigger] t1[k] == y;
                    assert(t0[k] == y);
                }
                if out@.contains(y) {
                    assert(t0.contains(y));
                    let m = choose|m: int| 0 <= m < t0.len() && #[trigger] t0[m] == y;
                    assert(t1[m] == y);
                }
                if y == x {
                    assert(out@[out@.len() - 1] == y);
                    assert(t1[t1.len() - 1] == y);
                }
            }
        }
        i = i + 1;
    }
    assert(sorted_steps@.take(sorted_steps@.len() as int) =~= sorted_steps@);
    assert(out@.to_set() =~= initial.to_set());
    out
}

} // verus!
