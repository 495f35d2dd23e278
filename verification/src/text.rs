//! Small verified string operations used by the key, path and configuration logic.

use vstd::prelude::*;

verus! {

/// Appends one character.
///
/// Calls `String::push`, which appends the character at the end of the string.
#[verifier::external_body]
pub(crate) fn push_char(s: &mut String, c: char)
    ensures
        final(s)@ == old(s)@.push(c),
{
    s.push(c)
}

/// Whether two strings hold the same characters.
pub fn str_eq(a: &str, b: &str) -> (r: bool)
    ensures
        r == (a@ == b@),
{
    let n = a.unicode_len();
    if n != b.unicode_len() {
        return false;
    }
    let mut i: usize = 0;
    while i < n
        invariant
            n == a@.len(),
            n == b@.len(),
            i <= n,
            forall|j: int| 0 <= j < i ==> a@[j] == b@[j],
        decreases n - i,
    {
        if a.get_char(i) != b.get_char(i) {
            return false;
        }
        i = i + 1;
    }
    assert(a@ =~= b@);
    true
}

/// Whether `s` begins with `prefix`.
pub fn starts_with(s: &str, prefix: &str) -> (r: bool)
    ensures
        r == (prefix@.len() <= s@.len() && s@.take(prefix@.len() as int) == prefix@),
{
    let n = prefix.unicode_len();
    if n > s.unicode_len() {
        return false;
    }
    let mut i: usize = 0;
    while i < n
        invariant
            n == prefix@.len(),
            n <= s@.len(),
            i <= n,
            forall|j: int| 0 <= j < i ==> s@[j] == prefix@[j],
        decreases n - i,
    {
        if s.get_char(i) != prefix.get_char(i) {
            assert(s@.take(n as int)[i as int] != prefix@[i as int]);
            return false;
        }
        i = i + 1;
    }
    assert(s@.take(n as int) =~= prefix@);
    true
}

/// The characters of `s` from index `from` on.
pub fn suffix_from(s: &str, from: usize) -> (r: String)
    requires
        from <= s@.len(),
    ensures
        r@ == s@.skip(from as int),
{
    let n = s.unicode_len();
    let mut out = String::new();
    let mut i = from;
    while i < n
        invariant
            n == s@.len(),
            from <= i <= n,
            out@ == s@.subrange(from as int, i as int),
        decreases n - i,
    {
        push_char(&mut out, s.get_char(i));
        i = i + 1;
        assert(out@ =~= s@.subrange(from as int, i as int));
    }
    assert(out@ =~= s@.skip(from as int));
    out
}

/// The characters of `s` in `[from, to)`.
pub fn chars_between(s: &str, from: usize, to: usize) -> (r: String)
    requires
        from <= to <= s@.len(),
    ensures
        r@ == s@.subrange(from as int, to as int),
{
    let mut out = String::new();
    let mut i = from;
    while i < to
        invariant
            to <= s@.len(),
            from <= i <= to,
            out@ == s@.subrange(from as int, i as int),
        decreases to - i,
    {
        push_char(&mut out, s.get_char(i));
        i = i + 1;
        assert(out@ =~= s@.subrange(from as int, i as int));
    }
    out
}

/// Number of leading characters of `s` equal to `c`.
pub open spec fn leading_count(s: Seq<char>, c: char) -> nat
    decreases s.len(),
{
    if s.len() > 0 && s[0] == c {
        1 + leading_count(s.drop_first(), c)
    } else {
        0
    }
}

/// Number of trailing characters of `s` equal to `c`.
pub open spec fn trailing_count(s: Seq<char>, c: char) -> nat
    decreases s.len(),
{
    if s.len() > 0 && s.last() == c {
        1 + trailing_count(s.drop_last(), c)
    } else {
        0
    }
}

proof fn lemma_leading_count(s: Seq<char>, c: char, k: int)
    requires
        0 <= k <= s.len(),
        forall|j: int| 0 <= j < k ==> s[j] == c,
        k == s.len() || s[k] != c,
    ensures
        leading_count(s, c) == k,
    decreases k,
{
    if k > 0 {
        lemma_leading_count(s.drop_first(), c, k - 1);
    }
}

proof fn lemma_trailing_count(s: Seq<char>, c: char, k: int)
    requires
        0 <= k <= s.len(),
        forall|j: int| s.len() - k <= j < s.len() ==> s[j] == c,
        k == s.len() || s[s.len() - k - 1] != c,
    ensures
        trailing_count(s, c) == k,
    decreases k,
{
    if k > 0 {
        let d = s.drop_last();
        assert forall|j: int| d.len() - (k - 1) <= j < d.len() implies d[j] == c by {
            assert(d[j] == s[j]);
        }
        if k - 1 < d.len() {
            assert(d[d.len() - (k - 1) - 1] == s[s.len() - k - 1]);
        }
        lemma_trailing_count(d, c, k - 1);
    }
}

/// `s` without its leading run of `c` (like `str::trim_start_matches` with a char).
pub fn trim_start_char(s: &str, c: char) -> (r: String)
    ensures
        r@ == s@.skip(leading_count(s@, c) as int),
{
    let n = s.unicode_len();
    let mut i: usize = 0;
    while i < n && s.get_char(i) == c
        invariant
            n == s@.len(),
            i <= n,
            forall|j: int| 0 <= j < i ==> s@[j] == c,
        decreases n - i,
    {
        i = i + 1;
    }
    proof {
        lemma_leading_count(s@, c, i as int);
    }
    suffix_from(s, i)
}

/// `s` without leading and trailing runs of `c` (like `str::trim_matches` with a char).
pub fn trim_char(s: &str, c: char) -> (r: String)
    ensures
        leading_count(s@, c) == s@.len() ==> r@ == Seq::<char>::empty(),
        leading_count(s@, c) != s@.len() ==> r@ == s@.subrange(
            leading_count(s@, c) as int,
            s@.len() - trailing_count(s@, c),
        ),
{
    let n = s.unicode_len();
    let mut i: usize = 0;
    while i < n && s.get_char(i) == c
        invariant
            n == s@.len(),
            i <= n,
            forall|j: int| 0 <= j < i ==> s@[j] == c,
        decreases n - i,
    {
        i = i + 1;
    }
    proof {
        lemma_leading_count(s@, c, i as int);
    }
    if i == n {
        return String::new();
    }
    let mut k: usize = 0;
    while k < n - i && s.get_char(n - 1 - k) == c
        invariant
            n == s@.len(),
            i < n,
            s@[i as int] != c,
            k <= n - i,
            forall|j: int| n - k <= j < n ==> s@[j] == c,
        decreases n - i - k,
    {
        k = k + 1;
    }
    proof {
        if k == n - i {
            assert(s@[(n - k) as int] == c);
        }
        lemma_trailing_count(s@, c, k as int);
    }
    chars_between(s, i, n - k)
}

/// Lexicographic order of texts by character code, as `str`'s `Ord` orders them (UTF-8
/// byte order and code point order agree).
pub open spec fn lex_le(a: Seq<char>, b: Seq<char>) -> bool
    decreases a.len(),
{
    if a.len() == 0 {
        true
    } else if b.len() == 0 {
        false
    } else if (a[0] as u32) < (b[0] as u32) {
        true
    } else if (a[0] as u32) == (b[0] as u32) {
        lex_le(a.drop_first(), b.drop_first())
    } else {
        false
    }
}

pub proof fn lemma_lex_total(a: Seq<char>, b: Seq<char>)
    ensures
        lex_le(a, b) || lex_le(b, a),
    decreases a.len(),
{
    if a.len() > 0 && b.len() > 0 && (a[0] as u32) == (b[0] as u32) {
        lemma_lex_total(a.drop_first(), b.drop_first());
    }
}

pub proof fn lemma_lex_transitive(a: Seq<char>, b: Seq<char>, c: Seq<char>)
    requires
        lex_le(a, b),
        lex_le(b, c),
    ensures
        lex_le(a, c),
    decreases a.len(),
{
    if a.len() > 0 && b.len() > 0 && c.len() > 0 && (a[0] as u32) == (b[0] as u32) && (b[0] as u32)
        == (c[0] as u32) {
        lemma_lex_transitive(a.drop_first(), b.drop_first(), c.drop_first());
    }
}

pub proof fn lemma_lex_refl(a: Seq<char>)
    ensures
        lex_le(a, a),
    decreases a.len(),
{
    if a.len() > 0 {
        lemma_lex_refl(a.drop_first());
    }
}

/// Whether `a` sorts before or equal to `b`.
pub fn str_le(a: &str, b: &str) -> (r: bool)
    ensures
        r == lex_le(a@, b@),
{
    let n = a.unicode_len();
    let m = b.unicode_len();
    let mut i: usize = 0;
    assert(a@.skip(0) =~= a@);
    assert(b@.skip(0) =~= b@);
    while i < n && i < m && (a.get_char(i) as u32) == (b.get_char(i) as u32)
        invariant
            n == a@.len(),
            m == b@.len(),
            i <= n,
            i <= m,
            lex_le(a@, b@) == lex_le(a@.skip(i as int), b@.skip(i as int)),
        decreases n - i,
    {
        assert(a@.skip(i as int).drop_first() =~= a@.skip(i + 1));
        assert(b@.skip(i as int).drop_first() =~= b@.skip(i + 1));
        i = i + 1;
    }
    if i == n {
        true
    } else if i == m {
        false
    } else {
        (a.get_char(i) as u32) < (b.get_char(i) as u32)
    }
}

/// Whether a sequence of texts is in lexicographic order.
pub open spec fn texts_sorted(s: Seq<String>) -> bool {
    forall|i: int, j: int| 0 <= i <= j < s.len() ==> lex_le(#[trigger] s[i]@, #[trigger] s[j]@)
}

/// Sorts texts in lexicographic order (as `Vec<String>::sort` does).
pub fn sort_texts(items: Vec<String>) -> (r: Vec<String>)
    ensures
        texts_sorted(r@),
        r@.to_multiset() == items@.to_multiset(),
{
    let ghost initial = items@;
    let mut rest = items;
    let mut out: Vec<String> = Vec::new();
    assert(initial.skip(initial.len() as int) =~= out@);
    assert(rest@ =~= initial.take(initial.len() as int));
    while rest.len() > 0
        invariant
            rest@.len() <= initial.len(),
            rest@ == initial.take(rest@.len() as int),
            texts_sorted(out@),
            out@.to_multiset() == initial.skip(rest@.len() as int).to_multiset(),
        decreases rest@.len(),
    {
        let ghost k = rest@.len() as int;
        let x = rest.pop().unwrap();
        assert(x == initial[k - 1]);
        assert(rest@ =~= initial.take(k - 1));
        let mut j: usize = 0;
        while j < out.len() && str_le(out[j].as_str(), x.as_str())
            invariant
                j <= out@.len(),
                forall|q: int| 0 <= q < j ==> lex_le(#[trigger] out@[q]@, x@),
            decreases out@.len() - j,
        {
            j = j + 1;
        }
        let ghost before = out@;
        proof {
            if j < before.len() {
                lemma_lex_total(x@, before[j as int]@);
                assert forall|b: int| j <= b < before.len() implies lex_le(x@, #[trigger] before[b]@) by {
                    lemma_lex_transitive(x@, before[j as int]@, before[b]@);
                }
            }
        }
        out.insert(j, x);
        assert(out@ == before.insert(j as int, x));
        assert(texts_sorted(out@)) by {
            assert forall|a: int, b: int| 0 <= a <= b < out@.len() implies lex_le(
                #[trigger] out@[a]@,
                #[trigger] out@[b]@,
            ) by {
                if a < j && b > j {
                    lemma_lex_transitive(before[a]@, x@, before[b - 1]@);
                } else if a == b {
                    lemma_lex_refl(out@[a]@);
                }
            }
        }
        let ghost s0 = initial.skip(k);
        assert(initial.skip(k - 1) =~= s0.insert(0, x));
        proof {
            vstd::seq_lib::to_multiset_insert(s0, 0, x);
            vstd::seq_lib::to_multiset_insert(before, j as int, x);
        }
    }
    assert(initial.skip(0) =~= initial);
    out
}

/// The lower-case form of a text, by Unicode's case mapping.
pub uninterp spec fn lowercase(s: Seq<char>) -> Seq<char>;

/// The lower-case form of a text.
///
/// Calls `str::to_lowercase`, which maps every character to its Unicode lower case.
#[verifier::external_body]
pub(crate) fn to_lowercase(s: &str) -> (r: String)
    ensures
        r@ == lowercase(s@),
{
    s.to_lowercase()
}

/// Whether a character is alphabetic or numeric in Unicode's sense.
pub uninterp spec fn is_alphanumeric(c: char) -> bool;

/// Whether a character is alphabetic or numeric.
///
/// Calls `char::is_alphanumeric`.
#[verifier::external_body]
pub(crate) fn char_is_alphanumeric(c: char) -> (r: bool)
    ensures
        r == is_alphanumeric(c),
{
    c.is_alphanumeric()
}

/// Whether a character has Unicode's White_Space property (`char::is_whitespace`).
pub open spec fn is_whitespace(c: char) -> bool {
    let n = c as u32;
    (0x9 <= n && n <= 0xD) || n == 0x20 || n == 0x85 || n == 0xA0 || n == 0x1680 || (0x2000 <= n && n
        <= 0x200A) || n == 0x2028 || n == 0x2029 || n == 0x202F || n == 0x205F || n == 0x3000
}

pub fn char_is_whitespace(c: char) -> (r: bool)
    ensures
        r == is_whitespace(c),
{
    let n = c as u32;
    (0x9 <= n && n <= 0xD) || n == 0x20 || n == 0x85 || n == 0xA0 || n == 0x1680 || (0x2000 <= n && n
        <= 0x200A) || n == 0x2028 || n == 0x2029 || n == 0x202F || n == 0x205F || n == 0x3000
}

/// Number of leading white-space characters of `s`.
pub open spec fn leading_ws(s: Seq<char>) -> nat
    decreases s.len(),
{
    if s.len() > 0 && is_whitespace(s[0]) {
        1 + leading_ws(s.drop_first())
    } else {
        0
    }
}

/// Number of trailing white-space characters of `s`.
pub open spec fn trailing_ws(s: Seq<char>) -> nat
    decreases s.len(),
{
    if s.len() > 0 && is_whitespace(s.last()) {
        1 + trailing_ws(s.drop_last())
    } else {
        0
    }
}

/// `s` without leading and trailing white space (as `str::trim`).
pub open spec fn trim_whitespace(s: Seq<char>) -> Seq<char> {
    if leading_ws(s) == s.len() {
        Seq::empty()
    } else {
        s.subrange(leading_ws(s) as int, s.len() - trailing_ws(s))
    }
}

proof fn lemma_leading_ws(s: Seq<char>, k: int)
    requires
        0 <= k <= s.len(),
        forall|j: int| 0 <= j < k ==> is_whitespace(s[j]),
        k == s.len() || !is_whitespace(s[k]),
    ensures
        leading_ws(s) == k,
    decreases k,
{
    if k > 0 {
        lemma_leading_ws(s.drop_first(), k - 1);
    }
}

proof fn lemma_trailing_ws(s: Seq<char>, k: int)
    requires
        0 <= k <= s.len(),
        forall|j: int| s.len() - k <= j < s.len() ==> is_whitespace(s[j]),
        k == s.len() || !is_whitespace(s[s.len() - k - 1]),
    ensures
        trailing_ws(s) == k,
    decreases k,
{
    if k > 0 {
        let d = s.drop_last();
        assert forall|j: int| d.len() - (k - 1) <= j < d.len() implies is_whitespace(d[j]) by {
            assert(d[j] == s[j]);
        }
        if k - 1 < d.len() {
            assert(d[d.len() - (k - 1) - 1] == s[s.len() - k - 1]);
        }
        lemma_trailing_ws(d, k - 1);
    }
}

/// `s` without leading and trailing white space.
pub fn trim(s: &str) -> (r: String)
    ensures
        r@ == trim_whitespace(s@),
{
    let n = s.unicode_len();
    let mut i: usize = 0;
    while i < n && char_is_whitespace(s.get_char(i))
        invariant
            n == s@.len(),
            i <= n,
            forall|j: int| 0 <= j < i ==> is_whitespace(s@[j]),
        decreases n - i,
    {
        i = i + 1;
    }
    proof {
        lemma_leading_ws(s@, i as int);
    }
    if i == n {
        return String::new();
    }
    let mut k: usize = 0;
    while k < n - i && char_is_whitespace(s.get_char(n - 1 - k))
        invariant
            n == s@.len(),
            i < n,
            !is_whitespace(s@[i as int]),
            k <= n - i,
            forall|j: int| n - k <= j < n ==> is_whitespace(s@[j]),
        decreases n - i - k,
    {
        k = k + 1;
    }
    proof {
        if k == n - i {
            assert(is_whitespace(s@[(n - k) as int]));
        }
        lemma_trailing_ws(s@, k as int);
    }
    chars_between(s, i, n - k)
}

} // verus!
