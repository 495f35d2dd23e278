//! Term statistics of memory text: the words of a text, how often each occurs, its most
//! frequent terms and its sparse term vector.

use vstd::prelude::*;
use vstd::multiset::Multiset;
use crate::memory::{byte_len, lemma_utf8_len_prefix, utf8_len};
use crate::text::{
    char_is_alphanumeric, is_alphanumeric, lemma_lex_refl, lemma_lex_total, lemma_lex_transitive,
    lex_le, lowercase, str_eq, str_le, to_lowercase, trim, trim_whitespace,
};

verus! {

broadcast use vstd::multiset::group_multiset_axioms;

/// The segments of `s` between characters that are not alphanumeric, as
/// `str::split(|c| !c.is_alphanumeric())` yields them (empty segments included).
pub open spec fn split_words(s: Seq<char>) -> Seq<Seq<char>>
    decreases s.len(),
{
    if s.len() == 0 {
        seq![Seq::empty()]
    } else {
        let p = split_words(s.drop_last());
        if is_alphanumeric(s.last()) {
            p.update(p.len() - 1, p.last().push(s.last()))
        } else {
            p.push(Seq::empty())
        }
    }
}

/// A segment trimmed of white space, kept when it is at least three bytes long.
pub open spec fn kept_term(t: Seq<char>) -> Option<Seq<char>> {
    if utf8_len(trim_whitespace(t)) >= 3 {
        Some(trim_whitespace(t))
    } else {
        None
    }
}

/// The terms of an already lower-cased text, in order.
pub open spec fn terms_of(normalized: Seq<char>) -> Seq<Seq<char>> {
    split_words(normalized).filter_map(|t: Seq<char>| kept_term(t))
}

/// How often each term occurs in `text` (lower-cased). A text without terms counts its
/// whole trimmed lower-cased form once, unless that is empty.
pub open spec fn term_counts(text: Seq<char>) -> Multiset<Seq<char>> {
    let normalized = lowercase(text);
    let terms = terms_of(normalized);
    if terms.len() > 0 {
        terms.to_multiset()
    } else if trim_whitespace(normalized).len() > 0 {
        Multiset::singleton(trim_whitespace(normalized))
    } else {
        Multiset::empty()
    }
}

/// `pairs` lists each term of `m` once, with its count.
pub open spec fn pairs_represent(pairs: Seq<(String, u64)>, m: Multiset<Seq<char>>) -> bool {
    &&& forall|a: int, b: int| 0 <= a < b < pairs.len() ==> pairs[a].0@ != pairs[b].0@
    &&& forall|a: int| 0 <= a < pairs.len() ==> #[trigger] pairs[a].1 == m.count(pairs[a].0@) && pairs[a].1
        >= 1
    &&& forall|k: Seq<char>| m.count(k) > 0 ==> exists|a: int| 0 <= a < pairs.len() && #[trigger] pairs[a].0@
        == k
}

proof fn lemma_split_words_nonempty(s: Seq<char>)
    ensures
        split_words(s).len() >= 1,
    decreases s.len(),
{
    if s.len() > 0 {
        lemma_split_words_nonempty(s.drop_last());
    }
}

/// The segments of a text between non-alphanumeric characters.
pub fn split_words_of(s: &str) -> (r: Vec<String>)
    ensures
        r@.map_values(|w: String| w@) == split_words(s@),
{
    let n = s.unicode_len();
    let mut done: Vec<String> = Vec::new();
    let mut cur = String::new();
    let mut i: usize = 0;
    assert(s@.take(0) =~= Seq::<char>::empty());
    while i < n
        invariant
            n == s@.len(),
            i <= n,
            done@.map_values(|w: String| w@).push(cur@) == split_words(s@.take(i as int)),
        decreases n - i,
    {
        let c = s.get_char(i);
        let ghost before = split_words(s@.take(i as int));
        assert(s@.take(i + 1).drop_last() =~= s@.take(i as int));
        assert(s@.take(i + 1).last() == c);
        if char_is_alphanumeric(c) {
            crate::text::push_char(&mut cur, c);
            assert(done@.map_values(|w: String| w@).push(cur@) =~= before.update(
                before.len() - 1,
                before.last().push(c),
            ));
        } else {
            let ghost d0 = done@.map_values(|w: String| w@);
            let mut finished = String::new();
            std::mem::swap(&mut finished, &mut cur);
            done.push(finished);
            assert(done@.map_values(|w: String| w@) =~= d0.push(before.last()));
            assert(done@.map_values(|w: String| w@).push(cur@) =~= before.push(Seq::empty()));
        }
        i = i + 1;
    }
    assert(s@.take(n as int) =~= s@);
    done.push(cur);
    assert(done@.map_values(|w: String| w@) =~= split_words(s@));
    done
}

/// The term a segment contributes, if any.
fn term_of_segment(w: &str) -> (r: Option<String>)
    ensures
        match kept_term(w@) {
            Some(t) => r matches Some(s) && s@ == t,
            None => r is None,
        },
{
    let t = trim(w);
    let n = t.as_str().unicode_len();
    if n >= 3 {
        proof {
            lemma_utf8_len_at_least_len(t@);
        }
        return Some(t);
    }
    // Fewer than three characters take at most twelve bytes.
    proof {
        lemma_utf8_len_at_most(t@);
    }
    let b = byte_len(t.as_str());
    if b >= 3 {
        Some(t)
    } else {
        None
    }
}

proof fn lemma_utf8_len_at_least_len(s: Seq<char>)
    ensures
        utf8_len(s) >= s.len(),
    decreases s.len(),
{
    if s.len() > 0 {
        lemma_utf8_len_at_least_len(s.drop_last());
    }
}

proof fn lemma_utf8_len_at_most(s: Seq<char>)
    ensures
        utf8_len(s) <= 4 * s.len(),
    decreases s.len(),
{
    if s.len() > 0 {
        lemma_utf8_len_at_most(s.drop_last());
    }
}

/// Strict lexicographic order.
pub open spec fn lex_lt(a: Seq<char>, b: Seq<char>) -> bool {
    lex_le(a, b) && a != b
}

/// Term pairs in strictly increasing order of term.
pub open spec fn pairs_by_term(pairs: Seq<(String, u64)>) -> bool {
    forall|a: int, b: int| 0 <= a < b < pairs.len() ==> lex_lt(pairs[a].0@, pairs[b].0@)
}

proof fn lemma_char_code_injective(a: char, b: char)
    requires
        (a as u32) == (b as u32),
    ensures
        a == b,
{
}

proof fn lemma_lex_antisymmetric(a: Seq<char>, b: Seq<char>)
    requires
        lex_le(a, b),
        lex_le(b, a),
    ensures
        a == b,
    decreases a.len(),
{
    if a.len() > 0 && b.len() > 0 {
        assert((a[0] as u32) == (b[0] as u32));
        lemma_char_code_injective(a[0], b[0]);
        lemma_lex_antisymmetric(a.drop_first(), b.drop_first());
        assert(a =~= seq![a[0]] + a.drop_first());
        assert(b =~= seq![b[0]] + b.drop_first());
    }
}

/// Where `term` is, or belongs, among pairs ordered by term: the first pair whose term
/// is not below it, and whether that pair holds `term`.
fn locate_term(pairs: &Vec<(String, u64)>, term: &str) -> (r: (usize, bool))
    requires
        pairs_by_term(pairs@),
    ensures
        r.0 <= pairs@.len(),
        forall|q: int| 0 <= q < r.0 ==> lex_lt(#[trigger] pairs@[q].0@, term@),
        r.1 ==> r.0 < pairs@.len() && pairs@[r.0 as int].0@ == term@,
        !r.1 ==> r.0 == pairs@.len() || lex_lt(term@, pairs@[r.0 as int].0@),
{
    let mut j: usize = 0;
    while j < pairs.len() && !str_le(term, pairs[j].0.as_str())
        invariant
            j <= pairs@.len(),
            forall|q: int| 0 <= q < j ==> lex_lt(#[trigger] pairs@[q].0@, term@),
        decreases pairs@.len() - j,
    {
        proof {
            lemma_lex_total(term@, pairs@[j as int].0@);
            if pairs@[j as int].0@ == term@ {
                lemma_lex_refl(term@);
            }
        }
        j = j + 1;
    }
    if j < pairs.len() && str_eq(pairs[j].0.as_str(), term) {
        (j, true)
    } else {
        (j, false)
    }
}

proof fn lemma_empty_to_multiset(s: Seq<Seq<char>>)
    requires
        s.len() == 0,
    ensures
        s.to_multiset() =~= Multiset::<Seq<char>>::empty(),
{
    vstd::seq_lib::to_multiset_len(s);
    assert forall|v: Seq<char>| s.to_multiset().count(v) == 0 by {
        vstd::multiset::axiom_count_le_len(s.to_multiset(), v);
    }
}

/// Counts one more occurrence of `t`.
fn add_term(pairs: &mut Vec<(String, u64)>, t: String, Ghost(m0): Ghost<Multiset<Seq<char>>>, Ghost(i): Ghost<int>)
    requires
        pairs_represent(old(pairs)@, m0),
        pairs_by_term(old(pairs)@),
        forall|a: int| 0 <= a < old(pairs)@.len() ==> #[trigger] old(pairs)@[a].1 <= i,
        0 <= i < u64::MAX,
    ensures
        pairs_represent(final(pairs)@, m0.insert(t@)),
        pairs_by_term(final(pairs)@),
        forall|a: int| 0 <= a < final(pairs)@.len() ==> #[trigger] final(pairs)@[a].1 <= i + 1,
{
    let ghost m1 = m0.insert(t@);
    let ghost p0 = pairs@;
    let (j, found) = locate_term(pairs, t.as_str());
    if found {
        assert(p0[j as int].1 <= i);
        let (term, count) = pairs.remove(j);
        let ghost removed = pairs@;
        let entry = (term, count + 1);
        let ghost ev = entry;
        pairs.insert(j, entry);
        assert(pairs@ =~= p0.update(j as int, ev));
        assert(ev.0@ == t@);
        assert(ev.1 == m0.count(t@) + 1);
        assert forall|b: int| 0 <= b < pairs@.len() implies #[trigger] pairs@[b].1 == m1.count(pairs@[b].0@)
            && pairs@[b].1 >= 1 && pairs@[b].1 <= i + 1 by {
            if b != j {
                assert(pairs@[b] == p0[b]);
                assert(p0[b].1 == m0.count(p0[b].0@));
                assert(p0[b].1 <= i);
                assert(p0[b].0@ != t@) by {
                    if b > j {
                        assert(lex_lt(p0[j as int].0@, p0[b].0@));
                    } else {
                        assert(lex_lt(p0[b].0@, t@));
                    }
                }
                assert(m1.count(p0[b].0@) == m0.count(p0[b].0@));
            } else {
                assert(pairs@[b] == ev);
                assert(m1.count(t@) == m0.count(t@) + 1);
            }
        }
        assert forall|k: Seq<char>| m1.count(k) > 0 implies exists|b: int| 0 <= b < pairs@.len()
            && #[trigger] pairs@[b].0@ == k by {
            if m0.count(k) > 0 {
                let b = choose|b: int| 0 <= b < p0.len() && #[trigger] p0[b].0@ == k;
                assert(pairs@[b].0@ == k);
            } else {
                assert(pairs@[j as int].0@ == k);
            }
        }
        assert forall|x: int, y: int| 0 <= x < y < pairs@.len() implies lex_lt(pairs@[x].0@, pairs@[y].0@) by {
            assert(pairs@[x].0@ == p0[x].0@);
            assert(pairs@[y].0@ == p0[y].0@);
        }
    } else {
        pairs.insert(j, (t, 1));
        proof {
            lemma_new_term_absent(p0, m0, t@, j as int);
            lemma_insert_keeps_order(p0, pairs@, t, j as int);
        }
        assert forall|b: int| 0 <= b < pairs@.len() implies #[trigger] pairs@[b].1 == m1.count(pairs@[b].0@)
            && pairs@[b].1 >= 1 && pairs@[b].1 <= i + 1 by {
            if b < j {
                assert(pairs@[b] == p0[b]);
                assert(p0[b].1 == m0.count(p0[b].0@));
                assert(p0[b].1 <= i);
                assert(lex_lt(p0[b].0@, t@));
                assert(m1.count(p0[b].0@) == m0.count(p0[b].0@));
            } else if b > j {
                assert(pairs@[b] == p0[b - 1]);
                assert(p0[b - 1].1 == m0.count(p0[b - 1].0@));
                assert(p0[b - 1].1 <= i);
                assert(lex_lt(t@, pairs@[b].0@));
                assert(m1.count(p0[b - 1].0@) == m0.count(p0[b - 1].0@));
            } else {
                assert(pairs@[b].0@ == t@);
                assert(pairs@[b].1 == 1);
                assert(m1.count(t@) == 1);
            }
        }
        assert forall|k: Seq<char>| m1.count(k) > 0 implies exists|b: int| 0 <= b < pairs@.len()
            && #[trigger] pairs@[b].0@ == k by {
            if m0.count(k) > 0 {
                let b = choose|b: int| 0 <= b < p0.len() && #[trigger] p0[b].0@ == k;
                if b < j {
                    assert(pairs@[b].0@ == k);
                } else {
                    assert(pairs@[b + 1].0@ == k);
                }
            } else {
                assert(pairs@[j as int].0@ == k);
            }
        }
    }
}

/// A term that sorts strictly between its neighbours is not among the pairs.
proof fn lemma_new_term_absent(p0: Seq<(String, u64)>, m0: Multiset<Seq<char>>, t: Seq<char>, j: int)
    requires
        pairs_represent(p0, m0),
        pairs_by_term(p0),
        0 <= j <= p0.len(),
        forall|q: int| 0 <= q < j ==> lex_lt(#[trigger] p0[q].0@, t),
        j == p0.len() || lex_lt(t, p0[j].0@),
    ensures
        m0.count(t) == 0,
{
    if m0.count(t) > 0 {
        let c = choose|c: int| 0 <= c < p0.len() && #[trigger] p0[c].0@ == t;
        if c < j {
            assert(lex_lt(p0[c].0@, t));
        } else if c == j {
        } else {
            assert(lex_lt(p0[j].0@, p0[c].0@));
            lemma_lex_transitive(t, p0[j].0@, p0[c].0@);
            lemma_lex_antisymmetric(p0[j].0@, t);
        }
    }
}

/// Inserting a term at its place keeps the pairs strictly ordered.
proof fn lemma_insert_keeps_order(p0: Seq<(String, u64)>, p1: Seq<(String, u64)>, t: String, j: int)
    requires
        pairs_by_term(p0),
        0 <= j <= p0.len(),
        forall|q: int| 0 <= q < j ==> lex_lt(#[trigger] p0[q].0@, t@),
        j == p0.len() || lex_lt(t@, p0[j].0@),
        p1 == p0.insert(j, (t, 1u64)),
    ensures
        pairs_by_term(p1),
        forall|b: int| j < b < p1.len() ==> lex_lt(t@, #[trigger] p1[b].0@),
{
    assert forall|b: int| j < b < p1.len() implies lex_lt(t@, #[trigger] p1[b].0@) by {
        assert(p1[b] == p0[b - 1]);
        if b - 1 > j {
            assert(lex_lt(p0[j].0@, p0[b - 1].0@));
            lemma_lex_transitive(t@, p0[j].0@, p0[b - 1].0@);
            if t@ == p0[b - 1].0@ {
                lemma_lex_antisymmetric(t@, p0[j].0@);
            }
        }
    }
    assert forall|x: int, y: int| 0 <= x < y < p1.len() implies lex_lt(p1[x].0@, p1[y].0@) by {
        if y < j {
            assert(p1[x] == p0[x] && p1[y] == p0[y]);
        } else if y == j {
            assert(p1[x] == p0[x]);
        } else if x > j {
            assert(p1[x] == p0[x - 1] && p1[y] == p0[y - 1]);
        } else if x == j {
        } else {
            assert(p1[x] == p0[x] && p1[y] == p0[y - 1]);
            assert(lex_lt(p0[x].0@, p0[y - 1].0@));
        }
    }
}

/// Each term of `text` with the number of times it occurs, in lexicographic order.
pub fn term_count_pairs(text: &str) -> (r: Vec<(String, u64)>)
    ensures
        pairs_represent(r@, term_counts(text@)),
        pairs_by_term(r@),
{
    let normalized = to_lowercase(text);
    let words = split_words_of(normalized.as_str());
    let ghost ws = words@.map_values(|w: String| w@);
    let ghost f = |t: Seq<char>| kept_term(t);
    let mut pairs: Vec<(String, u64)> = Vec::new();
    let mut i: usize = 0;
    proof {
        assert(ws.take(0).filter_map(f) =~= Seq::<Seq<char>>::empty());
        lemma_empty_to_multiset(ws.take(0).filter_map(f));
    }
    while i < words.len()
        invariant
            i <= words@.len(),
            ws == words@.map_values(|w: String| w@),
            ws == split_words(lowercase(text@)),
            f == (|t: Seq<char>| kept_term(t)),
            pairs_represent(pairs@, ws.take(i as int).filter_map(f).to_multiset()),
            pairs_by_term(pairs@),
            forall|a: int| 0 <= a < pairs@.len() ==> #[trigger] pairs@[a].1 <= i,
        decreases words@.len() - i,
    {
        let ghost m0 = ws.take(i as int).filter_map(f).to_multiset();
        proof {
            ws.lemma_filter_map_take_succ(f, i as int);
        }
        match term_of_segment(words[i].as_str()) {
            Some(t) => {
                let ghost m1 = m0.insert(t@);
                proof {
                    assert(ws[i as int] == words@[i as int]@);
                    assert(ws.take(i + 1).filter_map(f) =~= ws.take(i as int).filter_map(f).push(t@));
                    vstd::seq_lib::to_multiset_build(ws.take(i as int).filter_map(f), t@);
                }
                add_term(&mut pairs, t, Ghost(m0), Ghost(i as int));
            },
            None => {
                assert(ws.take(i + 1).filter_map(f) =~= ws.take(i as int).filter_map(f));
            },
        }
        i = i + 1;
    }
    assert(ws.take(words@.len() as int) =~= ws);
    let ghost m = ws.filter_map(f).to_multiset();
    let ghost terms = terms_of(lowercase(text@));
    assert(terms == ws.filter_map(f));
    proof {
        vstd::seq_lib::to_multiset_len(terms);
    }
    if pairs.len() > 0 {
        proof {
            assert(pairs@[0].1 == m.count(pairs@[0].0@));
            vstd::multiset::axiom_count_le_len(m, pairs@[0].0@);
        }
        return pairs;
    }
    assert(m =~= Multiset::<Seq<char>>::empty()) by {
        assert forall|k: Seq<char>| m.count(k) == 0 by {
            if m.count(k) > 0 {
                let b = choose|b: int| 0 <= b < pairs@.len() && #[trigger] pairs@[b].0@ == k;
            }
        }
    }
    let fallback = trim(normalized.as_str());
    if fallback.as_str().unicode_len() > 0 {
        let mut out: Vec<(String, u64)> = Vec::new();
        let ghost fv = fallback@;
        out.push((fallback, 1));
        assert(term_counts(text@) == Multiset::singleton(fv));
        assert forall|k: Seq<char>| term_counts(text@).count(k) > 0 implies exists|b: int|
            0 <= b < out@.len() && #[trigger] out@[b].0@ == k by {
            assert(out@[0].0@ == k);
        }
        out
    } else {
        pairs
    }
}

/// A sparse term vector: terms in lexicographic order, each with its count.
#[derive(Debug, Clone)]
pub struct SparseVector {
    pub dimensions: Vec<String>,
    pub values: Vec<u64>,
}

/// `dimensions` and `values` are the sparse vector of `text`: its terms in strictly
/// increasing lexicographic order, each with the number of times it occurs.
pub open spec fn is_sparse_vector_of(text: Seq<char>, dimensions: Seq<String>, values: Seq<u64>) -> bool {
    &&& dimensions.len() == values.len()
    &&& forall|i: int, j: int| 0 <= i < j < dimensions.len() ==> lex_lt(dimensions[i]@, dimensions[j]@)
    &&& forall|i: int| 0 <= i < values.len() ==> #[trigger] values[i] == term_counts(text).count(dimensions[i]@)
    &&& forall|k: Seq<char>| term_counts(text).count(k) > 0 <==> exists|i: int| 0 <= i < dimensions.len()
        && #[trigger] dimensions[i]@ == k
}

/// The sparse vector of `text`: its terms in strictly increasing lexicographic order,
/// each with the number of times it occurs.
pub fn build_sparse_vector(text: &str) -> (r: SparseVector)
    ensures
        is_sparse_vector_of(text@, r.dimensions@, r.values@),
{
    let sorted = term_count_pairs(text);
    let ghost m = term_counts(text@);
    let mut dimensions: Vec<String> = Vec::new();
    let mut values: Vec<u64> = Vec::new();
    let mut i: usize = 0;
    while i < sorted.len()
        invariant
            i <= sorted@.len(),
            pairs_represent(sorted@, m),
            pairs_by_term(sorted@),
            dimensions@.len() == i,
            values@.len() == i,
            forall|a: int| 0 <= a < i ==> #[trigger] dimensions@[a]@ == sorted@[a].0@ && values@[a] == sorted@[a].1,
        decreases sorted@.len() - i,
    {
        let ghost d0 = dimensions@;
        let ghost v0 = values@;
        let d = sorted[i].0.clone();
        dimensions.push(d);
        values.push(sorted[i].1);
        assert forall|a: int| 0 <= a < i + 1 implies #[trigger] dimensions@[a]@ == sorted@[a].0@ && values@[a]
            == sorted@[a].1 by {
            if a < i {
                assert(dimensions@[a] == d0[a]);
                assert(values@[a] == v0[a]);
            }
        }
        i = i + 1;
    }
    let r = SparseVector { dimensions, values };
    assert forall|a: int, b: int| 0 <= a < b < r.dimensions@.len() implies lex_lt(r.dimensions@[a]@, r.dimensions@[b]@) by {
        assert(r.dimensions@[a]@ == sorted@[a].0@);
        assert(r.dimensions@[b]@ == sorted@[b].0@);
    }
    assert forall|a: int| 0 <= a < r.values@.len() implies #[trigger] r.values@[a] == m.count(r.dimensions@[a]@) by {
        assert(r.dimensions@[a]@ == sorted@[a].0@);
        assert(sorted@[a].1 == m.count(sorted@[a].0@));
    }
    assert forall|k: Seq<char>| m.count(k) > 0 <==> exists|a: int| 0 <= a < r.dimensions@.len()
        && #[trigger] r.dimensions@[a]@ == k by {
        if m.count(k) > 0 {
            let a = choose|a: int| 0 <= a < sorted@.len() && #[trigger] sorted@[a].0@ == k;
            assert(r.dimensions@[a]@ == k);
        }
        if exists|a: int| 0 <= a < r.dimensions@.len() && #[trigger] r.dimensions@[a]@ == k {
            let a = choose|a: int| 0 <= a < r.dimensions@.len() && #[trigger] r.dimensions@[a]@ == k;
            assert(r.dimensions@[a]@ == sorted@[a].0@);
            assert(sorted@[a].1 == m.count(sorted@[a].0@));
        }
    }
    assert(is_sparse_vector_of(text@, r.dimensions@, r.values@));
    r
}

/// Whether term `a` ranks at or before term `b`: a higher count first, then
/// lexicographic order.
pub open spec fn ranks_before(m: Multiset<Seq<char>>, a: Seq<char>, b: Seq<char>) -> bool {
    m.count(a) > m.count(b) || (m.count(a) == m.count(b) && lex_le(a, b))
}

proof fn lemma_rank_total(m: Multiset<Seq<char>>, a: Seq<char>, b: Seq<char>)
    ensures
        ranks_before(m, a, b) || ranks_before(m, b, a),
{
    lemma_lex_total(a, b);
}

proof fn lemma_rank_transitive(m: Multiset<Seq<char>>, a: Seq<char>, b: Seq<char>, c: Seq<char>)
    requires
        ranks_before(m, a, b),
        ranks_before(m, b, c),
    ensures
        ranks_before(m, a, c),
{
    if m.count(a) == m.count(b) && m.count(b) == m.count(c) {
        lemma_lex_transitive(a, b, c);
    }
}

/// Pairs in rank order with distinct terms, each carrying its count.
pub open spec fn ranked_pairs(out: Seq<(String, u64)>, m: Multiset<Seq<char>>) -> bool {
    &&& forall|a: int, b: int| 0 <= a < b < out.len() ==> ranks_before(m, out[a].0@, out[b].0@)
    &&& forall|a: int, b: int| 0 <= a < b < out.len() ==> out[a].0@ != out[b].0@
    &&& forall|a: int| 0 <= a < out.len() ==> #[trigger] out[a].1 == m.count(out[a].0@)
}

/// Inserts `x` at its place in rank order; returns the place.
fn insert_ranked(out: &mut Vec<(String, u64)>, x: (String, u64), Ghost(m): Ghost<Multiset<Seq<char>>>) -> (j: usize)
    requires
        ranked_pairs(old(out)@, m),
        x.1 == m.count(x.0@),
        forall|a: int| 0 <= a < old(out)@.len() ==> #[trigger] old(out)@[a].0@ != x.0@,
    ensures
        j <= old(out)@.len(),
        final(out)@ == old(out)@.insert(j as int, x),
        ranked_pairs(final(out)@, m),
{
    let mut j: usize = 0;
    while j < out.len() && (out[j].1 > x.1 || (out[j].1 == x.1 && str_le(out[j].0.as_str(), x.0.as_str())))
        invariant
            j <= out@.len(),
            ranked_pairs(out@, m),
            x.1 == m.count(x.0@),
            forall|q: int| 0 <= q < j ==> ranks_before(m, #[trigger] out@[q].0@, x.0@),
        decreases out@.len() - j,
    {
        assert(out@[j as int].1 == m.count(out@[j as int].0@));
        j = j + 1;
    }
    let ghost before = out@;
    proof {
        if j < before.len() {
            assert(before[j as int].1 == m.count(before[j as int].0@));
            lemma_rank_total(m, x.0@, before[j as int].0@);
            assert forall|b: int| j <= b < before.len() implies ranks_before(m, x.0@, #[trigger] before[b].0@) by {
                if b > j {
                    lemma_rank_transitive(m, x.0@, before[j as int].0@, before[b].0@);
                }
            }
        }
    }
    out.insert(j, x);
    assert(out@ =~= before.insert(j as int, x));
    assert forall|a: int, b: int| 0 <= a < b < out@.len() implies ranks_before(m, out@[a].0@, out@[b].0@) by {
        if a < j && b > j {
            lemma_rank_transitive(m, before[a].0@, x.0@, before[b - 1].0@);
        }
    }
    assert forall|a: int, b: int| 0 <= a < b < out@.len() implies out@[a].0@ != out@[b].0@ by {
        if a < j && b > j {
            assert(before[a].0@ != before[b - 1].0@);
        }
    }
    j
}

/// The terms of `pairs` ordered by rank.
fn terms_by_rank(pairs: &Vec<(String, u64)>, Ghost(m): Ghost<Multiset<Seq<char>>>) -> (r: Vec<(String, u64)>)
    requires
        pairs_represent(pairs@, m),
    ensures
        ranked_pairs(r@, m),
        r@.to_multiset() == pairs@.to_multiset(),
{
    let mut out: Vec<(String, u64)> = Vec::new();
    let mut i: usize = 0;
    proof {
        lemma_empty_pairs_multiset(pairs@.take(0));
        lemma_empty_pairs_multiset(out@);
    }
    while i < pairs.len()
        invariant
            i <= pairs@.len(),
            pairs_represent(pairs@, m),
            ranked_pairs(out@, m),
            out@.to_multiset() == pairs@.take(i as int).to_multiset(),
        decreases pairs@.len() - i,
    {
        let x = (pairs[i].0.clone(), pairs[i].1);
        assert(x == pairs@[i as int]);
        assert(pairs@[i as int].1 == m.count(pairs@[i as int].0@));
        let ghost before = out@;
        proof {
            assert forall|b: int| 0 <= b < before.len() implies #[trigger] before[b].0@ != x.0@ by {
                vstd::seq_lib::to_multiset_contains(before, before[b]);
                assert(before.contains(before[b]));
                vstd::seq_lib::to_multiset_contains(pairs@.take(i as int), before[b]);
                let q = choose|q: int| 0 <= q < i && pairs@.take(i as int)[q] == before[b];
                assert(pairs@[q] == before[b]);
                assert(pairs@[q].0@ != pairs@[i as int].0@);
            }
        }
        let j = insert_ranked(&mut out, x, Ghost(m));
        proof {
            vstd::seq_lib::to_multiset_insert(before, j as int, x);
            assert(pairs@.take(i + 1) =~= pairs@.take(i as int).push(x));
            vstd::seq_lib::to_multiset_build(pairs@.take(i as int), x);
        }
        i = i + 1;
    }
    assert(pairs@.take(pairs@.len() as int) =~= pairs@);
    out
}

proof fn lemma_empty_pairs_multiset(s: Seq<(String, u64)>)
    requires
        s.len() == 0,
    ensures
        s.to_multiset() =~= Multiset::<(String, u64)>::empty(),
{
    vstd::seq_lib::to_multiset_len(s);
    assert forall|v: (String, u64)| s.to_multiset().count(v) == 0 by {
        vstd::multiset::axiom_count_le_len(s.to_multiset(), v);
    }
}

/// The number of terms `extract_semantic_terms` returns at most.
pub const MAX_SEMANTIC_TERMS: usize = 12;

/// `terms` are the most frequent terms of `text` (lower-cased), at most twelve: by count,
/// highest first, ties in lexicographic order.
pub open spec fn are_semantic_terms_of(text: Seq<char>, terms: Seq<String>) -> bool {
    let m = term_counts(text);
    &&& terms.len() == if m.dom().len() < 12 { m.dom().len() } else { 12 }
    &&& forall|i: int| 0 <= i < terms.len() ==> m.count(#[trigger] terms[i]@) > 0
    &&& forall|i: int, j: int| #![trigger terms[i], terms[j]] 0 <= i < j < terms.len() ==> terms[i]@ != terms[j]@ && ranks_before(m, terms[i]@, terms[j]@)
    &&& forall|k: Seq<char>, i: int| m.count(k) > 0 && 0 <= i < terms.len() && !terms.map_values(|t: String| t@).contains(k)
        ==> #[trigger] ranks_before(m, terms[i]@, k)
}

/// The most frequent terms of `text` (lower-cased), at most twelve: by count, highest
/// first, ties in lexicographic order.
pub fn extract_semantic_terms(text: &str) -> (r: Vec<String>)
    ensures
        are_semantic_terms_of(text@, r@),
{
    let pairs = term_count_pairs(text);
    let ghost m = term_counts(text@);
    let ranked = terms_by_rank(&pairs, Ghost(m));
    proof {
        lemma_pairs_cover_dom(pairs@, m);
    }
    let limit: usize = if ranked.len() < MAX_SEMANTIC_TERMS { ranked.len() } else { MAX_SEMANTIC_TERMS };
    let mut out: Vec<String> = Vec::new();
    let mut i: usize = 0;
    while i < limit
        invariant
            limit <= ranked@.len(),
            i <= limit,
            out@.len() == i,
            forall|a: int| 0 <= a < i ==> #[trigger] out@[a]@ == ranked@[a].0@,
        decreases limit - i,
    {
        out.push(ranked[i].0.clone());
        i = i + 1;
    }
    proof {
        let outv = out@.map_values(|t: String| t@);
        assert forall|k: Seq<char>, a: int| m.count(k) > 0 && 0 <= a < out@.len() && !outv.contains(k)
            implies #[trigger] ranks_before(m, out@[a]@, k) by {
            let q = choose|q: int| 0 <= q < pairs@.len() && #[trigger] pairs@[q].0@ == k;
            assert(pairs@.contains(pairs@[q]));
            vstd::seq_lib::to_multiset_contains(pairs@, pairs@[q]);
            vstd::seq_lib::to_multiset_contains(ranked@, pairs@[q]);
            let b = choose|b: int| 0 <= b < ranked@.len() && ranked@[b] == pairs@[q];
            if b < limit {
                assert(out@[b]@ == k);
                assert(outv[b] == k);
            }
            assert(a < b);
            assert(out@[a]@ == ranked@[a].0@);
        }
        assert forall|a: int| 0 <= a < out@.len() implies m.count(#[trigger] out@[a]@) > 0 by {
            assert(ranked@[a].1 == m.count(ranked@[a].0@));
            assert(ranked@.contains(ranked@[a]));
            vstd::seq_lib::to_multiset_contains(ranked@, ranked@[a]);
            vstd::seq_lib::to_multiset_contains(pairs@, ranked@[a]);
            let q = choose|q: int| 0 <= q < pairs@.len() && pairs@[q] == ranked@[a];
            assert(pairs@[q].1 >= 1);
        }
        assert forall|a: int, b: int| 0 <= a < b < out@.len() implies out@[a]@ != out@[b]@ && ranks_before(
            m,
            out@[a]@,
            out@[b]@,
        ) by {
            assert(out@[a]@ == ranked@[a].0@);
            assert(out@[b]@ == ranked@[b].0@);
        }
        vstd::seq_lib::to_multiset_len(ranked@);
        vstd::seq_lib::to_multiset_len(pairs@);
    }
    assert(are_semantic_terms_of(text@, out@));
    out
}

/// The pairs list exactly the terms of the multiset, so they are as many as its terms.
proof fn lemma_pairs_cover_dom(pairs: Seq<(String, u64)>, m: Multiset<Seq<char>>)
    requires
        pairs_represent(pairs, m),
    ensures
        m.dom().len() == pairs.len(),
{
    let keys = pairs.map_values(|p: (String, u64)| p.0@);
    assert(keys.no_duplicates()) by {
        assert forall|x: int, y: int| 0 <= x < keys.len() && 0 <= y < keys.len() && x != y implies keys[x]
            != keys[y] by {
            if x < y {
                assert(pairs[x].0@ != pairs[y].0@);
            } else {
                assert(pairs[y].0@ != pairs[x].0@);
            }
        }
    }
    keys.unique_seq_to_set();
    assert(keys.to_set() =~= m.dom()) by {
        assert forall|k: Seq<char>| keys.to_set().contains(k) <==> m.dom().contains(k) by {
            if m.count(k) > 0 {
                let a = choose|a: int| 0 <= a < pairs.len() && #[trigger] pairs[a].0@ == k;
                assert(keys[a] == k);
            }
            if keys.contains(k) {
                let a = choose|a: int| 0 <= a < keys.len() && keys[a] == k;
                assert(pairs[a].1 == m.count(pairs[a].0@));
            }
        }
    }
}


proof fn lemma_dimensions_cover_dom(dims: Seq<String>, m: Multiset<Seq<char>>)
    requires
        forall|i: int, j: int| 0 <= i < j < dims.len() ==> lex_lt(dims[i]@, dims[j]@),
        forall|k: Seq<char>| m.count(k) > 0 <==> exists|i: int| 0 <= i < dims.len() && #[trigger] dims[i]@ == k,
    ensures
        m.dom().len() == dims.len(),
{
    let keys = dims.map_values(|d: String| d@);
    assert(keys.no_duplicates()) by {
        assert forall|x: int, y: int| 0 <= x < keys.len() && 0 <= y < keys.len() && x != y implies keys[x] != keys[y] by {
            if x < y {
                assert(lex_lt(dims[x]@, dims[y]@));
            } else {
                assert(lex_lt(dims[y]@, dims[x]@));
            }
        }
    }
    keys.unique_seq_to_set();
    assert(keys.to_set() =~= m.dom()) by {
        assert forall|k: Seq<char>| keys.to_set().contains(k) <==> m.dom().contains(k) by {
            if m.count(k) > 0 {
                let a = choose|a: int| 0 <= a < dims.len() && #[trigger] dims[a]@ == k;
                assert(keys[a] == k);
            }
            if keys.contains(k) {
                let a = choose|a: int| 0 <= a < keys.len() && keys[a] == k;
                assert(dims[a]@ == k);
            }
        }
    }
}

/// A text's semantic terms are its sparse vector's dimensions ranked by their values,
/// highest first and ties in lexicographic order, cut to the first twelve.
pub proof fn law_terms_are_top_dimensions(text: Seq<char>, dims: Seq<String>, values: Seq<u64>, terms: Seq<String>)
    requires
        is_sparse_vector_of(text, dims, values),
        are_semantic_terms_of(text, terms),
    ensures
        terms.len() == if dims.len() < 12 { dims.len() } else { 12 },
        forall|a: int| 0 <= a < terms.len() ==> exists|x: int| 0 <= x < dims.len() && #[trigger] dims[x]@ == #[trigger] terms[a]@,
        forall|a: int, b: int, x: int, y: int|
            #![trigger terms[a], terms[b], dims[x], dims[y]]
            0 <= a < b < terms.len() && 0 <= x < dims.len() && 0 <= y < dims.len() && dims[x]@ == terms[a]@
                && dims[y]@ == terms[b]@ ==> values[x] > values[y] || (values[x] == values[y] && lex_lt(dims[x]@, dims[y]@)),
        forall|a: int, x: int, y: int|
            #![trigger terms[a], dims[x], dims[y]]
            0 <= a < terms.len() && 0 <= x < dims.len() && 0 <= y < dims.len() && dims[x]@ == terms[a]@
                && !terms.map_values(|t: String| t@).contains(dims[y]@) ==> values[x] > values[y] || (values[x]
                == values[y] && lex_lt(dims[x]@, dims[y]@)),
{
    let m = term_counts(text);
    lemma_dimensions_cover_dom(dims, m);
    assert forall|a: int| 0 <= a < terms.len() implies exists|x: int| 0 <= x < dims.len() && #[trigger] dims[x]@ == #[trigger] terms[a]@ by {
        assert(m.count(terms[a]@) > 0);
    }
    assert forall|a: int, b: int, x: int, y: int|
        #![trigger terms[a], terms[b], dims[x], dims[y]]
        0 <= a < b < terms.len() && 0 <= x < dims.len() && 0 <= y < dims.len() && dims[x]@ == terms[a]@
            && dims[y]@ == terms[b]@ implies values[x] > values[y] || (values[x] == values[y] && lex_lt(dims[x]@, dims[y]@)) by {
        assert(values[x] == m.count(dims[x]@));
        assert(values[y] == m.count(dims[y]@));
        assert(terms[a]@ != terms[b]@ && ranks_before(m, terms[a]@, terms[b]@));
    }
    assert forall|a: int, x: int, y: int|
        #![trigger terms[a], dims[x], dims[y]]
        0 <= a < terms.len() && 0 <= x < dims.len() && 0 <= y < dims.len() && dims[x]@ == terms[a]@
            && !terms.map_values(|t: String| t@).contains(dims[y]@) implies values[x] > values[y] || (values[x]
            == values[y] && lex_lt(dims[x]@, dims[y]@)) by {
        assert(values[x] == m.count(dims[x]@));
        assert(values[y] == m.count(dims[y]@));
        assert(m.count(dims[y]@) > 0);
        assert(ranks_before(m, terms[a]@, dims[y]@));
        if dims[x]@ == dims[y]@ {
            assert(terms.map_values(|t: String| t@)[a] == dims[y]@);
        }
    }
}

} // verus!
