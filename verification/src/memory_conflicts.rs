//! Whether two facts conflict: one negates what the other states, they name different
//! places, or they are of one category and say much the same in different words.

use vstd::prelude::*;
use crate::memory::FactCategory;
use crate::text::{char_is_whitespace, is_whitespace, push_char, starts_with, str_eq, suffix_from};

verus! {

/// `needle` occurs in `hay` (an empty needle occurs everywhere).
pub open spec fn has_substring(hay: Seq<char>, needle: Seq<char>) -> bool {
    exists|i: int| 0 <= i <= hay.len() - needle.len() && #[trigger] hay.subrange(i, i + needle.len()) == needle
}

/// Whether `needle` occurs in `hay`, as `str::contains` finds it.
pub fn contains_text(hay: &str, needle: &str) -> (r: bool)
    ensures
        r == has_substring(hay@, needle@),
{
    let n = hay.unicode_len();
    let m = needle.unicode_len();
    if m > n {
        return false;
    }
    if m == 0 {
        assert(hay@.subrange(0, 0int + needle@.len()) =~= needle@);
        return true;
    }
    let mut i: usize = 0;
    while i <= n - m
        invariant
            n == hay@.len(),
            m == needle@.len(),
            0 < m <= n,
            i <= n - m + 1,
            forall|j: int| 0 <= j < i ==> #[trigger] hay@.subrange(j, j + m) != needle@,
        decreases n - m + 1 - i,
    {
        let rest = suffix_from(hay, i);
        if starts_with(rest.as_str(), needle) {
            assert(rest@.take(m as int) =~= hay@.subrange(i as int, i + m));
            return true;
        }
        assert(rest@.take(m as int) =~= hay@.subrange(i as int, i + m));
        i = i + 1;
    }
    false
}

/// The pieces of `s` between white space (empty pieces included).
pub open spec fn ws_segments(s: Seq<char>) -> Seq<Seq<char>>
    decreases s.len(),
{
    if s.len() == 0 {
        seq![Seq::empty()]
    } else {
        let p = ws_segments(s.drop_last());
        if is_whitespace(s.last()) {
            p.push(Seq::empty())
        } else {
            p.update(p.len() - 1, p.last().push(s.last()))
        }
    }
}

proof fn lemma_ws_segments_nonempty(s: Seq<char>)
    ensures
        ws_segments(s).len() > 0,
    decreases s.len(),
{
    if s.len() > 0 {
        lemma_ws_segments_nonempty(s.drop_last());
    }
}

/// The distinct non-empty pieces, in order of first occurrence.
pub open spec fn distinct_words(segments: Seq<Seq<char>>) -> Seq<Seq<char>>
    decreases segments.len(),
{
    if segments.len() == 0 {
        Seq::empty()
    } else {
        let d = distinct_words(segments.drop_last());
        let w = segments.last();
        if w.len() == 0 || d.contains(w) {
            d
        } else {
            d.push(w)
        }
    }
}

/// The distinct words of a text split at white space, as `split_whitespace` gives them.
pub open spec fn word_set(s: Seq<char>) -> Seq<Seq<char>> {
    distinct_words(ws_segments(s))
}

/// How many of the words `a` are among the words `b`.
pub open spec fn shared_count(a: Seq<Seq<char>>, b: Seq<Seq<char>>) -> nat
    decreases a.len(),
{
    if a.len() == 0 {
        0
    } else {
        shared_count(a.drop_last(), b) + if b.contains(a.last()) { 1nat } else { 0nat }
    }
}

fn split_ws(s: &str) -> (r: Vec<String>)
    ensures
        r@.map_values(|t: String| t@) == ws_segments(s@),
{
    let n = s.unicode_len();
    let mut segs: Vec<String> = Vec::new();
    segs.push(String::new());
    assert(segs@.map_values(|t: String| t@) =~= ws_segments(s@.take(0)));
    let mut i: usize = 0;
    while i < n
        invariant
            n == s@.len(),
            i <= n,
            segs@.len() > 0,
            segs@.map_values(|t: String| t@) == ws_segments(s@.take(i as int)),
        decreases n - i,
    {
        let c = s.get_char(i);
        let ghost before = segs@.map_values(|t: String| t@);
        proof {
            assert(s@.take(i + 1).drop_last() =~= s@.take(i as int));
            assert(s@.take(i + 1).last() == c);
        }
        if char_is_whitespace(c) {
            segs.push(String::new());
            assert(segs@.map_values(|t: String| t@) =~= before.push(Seq::empty()));
        } else {
            let k = segs.len() - 1;
            let mut last = segs.pop().unwrap();
            push_char(&mut last, c);
            segs.push(last);
            assert(segs@.map_values(|t: String| t@) =~= before.update(k as int, before.last().push(c)));
        }
        i = i + 1;
    }
    assert(s@.take(n as int) =~= s@);
    segs
}

fn listed(words: &Vec<String>, w: &str) -> (r: bool)
    ensures
        r == words@.map_values(|t: String| t@).contains(w@),
{
    let ghost v = words@.map_values(|t: String| t@);
    let mut j: usize = 0;
    while j < words.len()
        invariant
            j <= words@.len(),
            v == words@.map_values(|t: String| t@),
            forall|t: int| 0 <= t < j ==> v[t] != w@,
        decreases words@.len() - j,
    {
        if str_eq(words[j].as_str(), w) {
            assert(v[j as int] == w@);
            return true;
        }
        j = j + 1;
    }
    false
}

/// The distinct words of a text, split at white space.
pub fn words_of(s: &str) -> (r: Vec<String>)
    ensures
        r@.map_values(|t: String| t@) == word_set(s@),
{
    let segs = split_ws(s);
    let ghost sv = segs@.map_values(|t: String| t@);
    let mut out: Vec<String> = Vec::new();
    let mut i: usize = 0;
    while i < segs.len()
        invariant
            i <= segs@.len(),
            sv == segs@.map_values(|t: String| t@),
            sv == ws_segments(s@),
            out@.map_values(|t: String| t@) == distinct_words(sv.take(i as int)),
        decreases segs@.len() - i,
    {
        let ghost before = out@.map_values(|t: String| t@);
        proof {
            assert(sv.take(i + 1).drop_last() =~= sv.take(i as int));
            assert(sv.take(i + 1).last() == sv[i as int]);
        }
        let w = segs[i].as_str();
        if w.unicode_len() > 0 && !listed(&out, w) {
            out.push(segs[i].clone());
            assert(out@.map_values(|t: String| t@) =~= before.push(sv[i as int]));
        }
        i = i + 1;
    }
    assert(sv.take(segs@.len() as int) =~= sv);
    out
}

fn count_shared(a: &Vec<String>, b: &Vec<String>) -> (r: usize)
    ensures
        r == shared_count(a@.map_values(|t: String| t@), b@.map_values(|t: String| t@)),
        r <= a@.len(),
{
    let ghost av = a@.map_values(|t: String| t@);
    let mut k: usize = 0;
    let mut i: usize = 0;
    while i < a.len()
        invariant
            i <= a@.len(),
            av == a@.map_values(|t: String| t@),
            k == shared_count(av.take(i as int), b@.map_values(|t: String| t@)),
            k <= i,
        decreases a@.len() - i,
    {
        proof {
            assert(av.take(i + 1).drop_last() =~= av.take(i as int));
            assert(av.take(i + 1).last() == av[i as int]);
        }
        if listed(b, a[i].as_str()) {
            k = k + 1;
        }
        i = i + 1;
    }
    assert(av.take(a@.len() as int) =~= av);
    k
}

/// The rules that decide conflicts: the negation words, the place names, and the share
/// of common words above which two facts of one category say the same thing, as the
/// fraction `similarity_num / similarity_den`.
pub struct ConflictRules {
    pub negation_words: Vec<String>,
    pub location_keywords: Vec<String>,
    pub similarity_num: i64,
    pub similarity_den: u64,
}

/// The words of `a` and `b` are similar beyond the threshold `num / den`: their shared
/// distinct words over all their distinct words is above it (nothing is similar when
/// either has no words, which counts as similarity zero).
pub open spec fn similar_beyond(a: Seq<char>, b: Seq<char>, num: int, den: int) -> bool {
    let wa = word_set(a);
    let wb = word_set(b);
    if wa.len() == 0 || wb.len() == 0 {
        num < 0
    } else {
        let common = shared_count(wa, wb);
        common * den > num * (wa.len() + wb.len() - common)
    }
}

/// Some of the words occurs in the text.
pub open spec fn mentions_any(words: Seq<Seq<char>>, text: Seq<char>) -> bool {
    exists|i: int| 0 <= i < words.len() && has_substring(text, #[trigger] words[i])
}

/// The first of the keywords that occurs in the text, in the keywords' order.
pub open spec fn first_mentioned(keywords: Seq<Seq<char>>, text: Seq<char>) -> Option<Seq<char>>
    decreases keywords.len(),
{
    if keywords.len() == 0 {
        None
    } else if has_substring(text, keywords[0]) {
        Some(keywords[0])
    } else {
        first_mentioned(keywords.drop_first(), text)
    }
}

/// Two facts conflict when exactly one of them holds a negation word and they are similar
/// beyond the threshold; when they name different places; or when they are of one
/// category and similar beyond the threshold.
pub open spec fn facts_conflict(
    rules: ConflictRules,
    a: Seq<char>,
    a_category: FactCategory,
    b: Seq<char>,
    b_category: FactCategory,
) -> bool {
    let neg = rules.negation_words@.map_values(|t: String| t@);
    let places = rules.location_keywords@.map_values(|t: String| t@);
    let similar = similar_beyond(a, b, rules.similarity_num as int, rules.similarity_den as int);
    ||| mentions_any(neg, a) != mentions_any(neg, b) && similar
    ||| (first_mentioned(places, a) matches Some(p) && first_mentioned(places, b) matches Some(q) && p != q)
    ||| a_category == b_category && similar
}

fn similarity_exceeds(a: &str, b: &str, num: i64, den: u64) -> (r: bool)
    ensures
        r == similar_beyond(a@, b@, num as int, den as int),
{
    let wa = words_of(a);
    let wb = words_of(b);
    if wa.len() == 0 || wb.len() == 0 {
        return num < 0;
    }
    let common = count_shared(&wa, &wb);
    let union: u128 = (wa.len() - common) as u128 + wb.len() as u128;
    assert(union > 0);
    if num < 0 {
        assert(num * union < 0) by (nonlinear_arith)
            requires
                num < 0,
                union > 0,
        ;
        assert(common * den >= 0) by (nonlinear_arith)
            requires
                common >= 0,
                den >= 0,
        ;
        return true;
    }
    assert((common as u128) * (den as u128) <= u128::MAX) by (nonlinear_arith)
        requires
            common <= u64::MAX,
            den <= u64::MAX,
    ;
    assert((num as u128) * union <= u128::MAX) by (nonlinear_arith)
        requires
            0 <= num <= i64::MAX,
            union <= 2 * (u64::MAX as u128),
    ;
    let lhs: u128 = (common as u128) * (den as u128);
    let rhs: u128 = (num as u128) * union;
    lhs > rhs
}

fn mentions_any_of(words: &Vec<String>, text: &str) -> (r: bool)
    ensures
        r == mentions_any(words@.map_values(|t: String| t@), text@),
{
    let ghost v = words@.map_values(|t: String| t@);
    let mut i: usize = 0;
    while i < words.len()
        invariant
            i <= words@.len(),
            v == words@.map_values(|t: String| t@),
            forall|j: int| 0 <= j < i ==> !has_substring(text@, #[trigger] v[j]),
        decreases words@.len() - i,
    {
        if contains_text(text, words[i].as_str()) {
            assert(has_substring(text@, v[i as int]));
            return true;
        }
        i = i + 1;
    }
    false
}

fn first_mentioned_of(keywords: &Vec<String>, text: &str) -> (r: Option<String>)
    ensures
        match r {
            Some(k) => first_mentioned(keywords@.map_values(|t: String| t@), text@) == Some(k@),
            None => first_mentioned(keywords@.map_values(|t: String| t@), text@) is None,
        },
{
    let ghost v = keywords@.map_values(|t: String| t@);
    assert(v.skip(0) =~= v);
    let mut i: usize = 0;
    while i < keywords.len()
        invariant
            i <= keywords@.len(),
            v == keywords@.map_values(|t: String| t@),
            first_mentioned(v, text@) == first_mentioned(v.skip(i as int), text@),
        decreases keywords@.len() - i,
    {
        let ghost rest = v.skip(i as int);
        assert(rest[0] == v[i as int]);
        if contains_text(text, keywords[i].as_str()) {
            return Some(keywords[i].clone());
        }
        assert(rest.drop_first() =~= v.skip(i + 1));
        i = i + 1;
    }
    assert(v.skip(keywords@.len() as int) =~= Seq::<Seq<char>>::empty());
    None
}

/// Whether two facts conflict, as [`facts_conflict`] says.
pub fn detect_conflict(rules: &ConflictRules, a: &str, a_category: FactCategory, b: &str, b_category: FactCategory) -> (r: bool)
    ensures
        r == facts_conflict(*rules, a@, a_category, b@, b_category),
{
    let similar = similarity_exceeds(a, b, rules.similarity_num, rules.similarity_den);
    if mentions_any_of(&rules.negation_words, a) != mentions_any_of(&rules.negation_words, b) && similar {
        return true;
    }
    let pa = first_mentioned_of(&rules.location_keywords, a);
    let pb = first_mentioned_of(&rules.location_keywords, b);
    match (pa, pb) {
        (Some(p), Some(q)) => {
            if !str_eq(p.as_str(), q.as_str()) {
                return true;
            }
        },
        _ => {},
    }
    a_category == b_category && similar
}

/// When exactly one of two facts holds a negation word and their distinct words overlap
/// beyond the threshold (shared words over all words), they conflict, whatever their
/// categories.
pub proof fn law_negation_with_overlap_conflicts(
    rules: ConflictRules,
    a: Seq<char>,
    a_category: FactCategory,
    b: Seq<char>,
    b_category: FactCategory,
)
    requires
        (exists|i: int| 0 <= i < rules.negation_words@.len() && has_substring(a, #[trigger] rules.negation_words@[i]@))
            != (exists|i: int| 0 <= i < rules.negation_words@.len() && has_substring(b, #[trigger] rules.negation_words@[i]@)),
        word_set(a).len() > 0,
        word_set(b).len() > 0,
        shared_count(word_set(a), word_set(b)) * rules.similarity_den > rules.similarity_num * (word_set(a).len()
            + word_set(b).len() - shared_count(word_set(a), word_set(b))),
    ensures
        facts_conflict(rules, a, a_category, b, b_category),
{
    lemma_mentions_any_words(rules.negation_words@, a);
    lemma_mentions_any_words(rules.negation_words@, b);
}

/// Two facts of one category whose distinct words overlap beyond the threshold conflict.
pub proof fn law_same_category_overlap_conflicts(rules: ConflictRules, a: Seq<char>, b: Seq<char>, category: FactCategory)
    requires
        word_set(a).len() > 0,
        word_set(b).len() > 0,
        shared_count(word_set(a), word_set(b)) * rules.similarity_den > rules.similarity_num * (word_set(a).len()
            + word_set(b).len() - shared_count(word_set(a), word_set(b))),
    ensures
        facts_conflict(rules, a, category, b, category),
{
}

/// Two facts conflict, whatever their categories, when the first place name (in the
/// rules' order) that each mentions is found in both and differs.
pub proof fn law_different_places_conflict(
    rules: ConflictRules,
    a: Seq<char>,
    a_category: FactCategory,
    b: Seq<char>,
    b_category: FactCategory,
    i: int,
    j: int,
)
    requires
        0 <= i < rules.location_keywords@.len(),
        0 <= j < rules.location_keywords@.len(),
        has_substring(a, rules.location_keywords@[i]@),
        forall|k: int| 0 <= k < i ==> !has_substring(a, #[trigger] rules.location_keywords@[k]@),
        has_substring(b, rules.location_keywords@[j]@),
        forall|k: int| 0 <= k < j ==> !has_substring(b, #[trigger] rules.location_keywords@[k]@),
        rules.location_keywords@[i]@ != rules.location_keywords@[j]@,
    ensures
        facts_conflict(rules, a, a_category, b, b_category),
{
    let places = rules.location_keywords@.map_values(|t: String| t@);
    lemma_first_mentioned_at(places, a, i);
    lemma_first_mentioned_at(places, b, j);
}

/// Facts of which at most one names a place do not conflict when nothing else makes them:
/// when their distinct words do not overlap beyond the threshold, or when they are of
/// different categories and both or neither holds a negation word.
pub proof fn law_no_conflict_without_cause(
    rules: ConflictRules,
    a: Seq<char>,
    a_category: FactCategory,
    b: Seq<char>,
    b_category: FactCategory,
)
    requires
        (forall|k: int| 0 <= k < rules.location_keywords@.len() ==> !has_substring(a, #[trigger] rules.location_keywords@[k]@))
            || (forall|k: int| 0 <= k < rules.location_keywords@.len() ==> !has_substring(b, #[trigger] rules.location_keywords@[k]@)),
        ({
            ||| word_set(a).len() > 0 && word_set(b).len() > 0 && shared_count(word_set(a), word_set(b)) * rules.similarity_den
                <= rules.similarity_num * (word_set(a).len() + word_set(b).len() - shared_count(word_set(a), word_set(b)))
            ||| a_category != b_category && (exists|i: int| 0 <= i < rules.negation_words@.len() && has_substring(a, #[trigger] rules.negation_words@[i]@))
                == (exists|i: int| 0 <= i < rules.negation_words@.len() && has_substring(b, #[trigger] rules.negation_words@[i]@))
        }),
    ensures
        !facts_conflict(rules, a, a_category, b, b_category),
{
    let neg = rules.negation_words@.map_values(|t: String| t@);
    let places = rules.location_keywords@.map_values(|t: String| t@);
    lemma_mentions_any_words(rules.negation_words@, a);
    lemma_mentions_any_words(rules.negation_words@, b);
    if forall|k: int| 0 <= k < rules.location_keywords@.len() ==> !has_substring(a, #[trigger] rules.location_keywords@[k]@) {
        lemma_none_mentioned(places, a);
    } else {
        lemma_none_mentioned(places, b);
    }
}

/// Facts whose first place names (in the rules' order) are the same do not conflict when
/// nothing else makes them: when their distinct words do not overlap beyond the
/// threshold, or when they are of different categories and both or neither holds a
/// negation word.
pub proof fn law_same_place_no_conflict_without_cause(
    rules: ConflictRules,
    a: Seq<char>,
    a_category: FactCategory,
    b: Seq<char>,
    b_category: FactCategory,
    i: int,
    j: int,
)
    requires
        0 <= i < rules.location_keywords@.len(),
        0 <= j < rules.location_keywords@.len(),
        has_substring(a, rules.location_keywords@[i]@),
        forall|k: int| 0 <= k < i ==> !has_substring(a, #[trigger] rules.location_keywords@[k]@),
        has_substring(b, rules.location_keywords@[j]@),
        forall|k: int| 0 <= k < j ==> !has_substring(b, #[trigger] rules.location_keywords@[k]@),
        rules.location_keywords@[i]@ == rules.location_keywords@[j]@,
        ({
            ||| word_set(a).len() > 0 && word_set(b).len() > 0 && shared_count(word_set(a), word_set(b)) * rules.similarity_den
                <= rules.similarity_num * (word_set(a).len() + word_set(b).len() - shared_count(word_set(a), word_set(b)))
            ||| a_category != b_category && (exists|n: int| 0 <= n < rules.negation_words@.len() && has_substring(a, #[trigger] rules.negation_words@[n]@))
                == (exists|n: int| 0 <= n < rules.negation_words@.len() && has_substring(b, #[trigger] rules.negation_words@[n]@))
        }),
    ensures
        !facts_conflict(rules, a, a_category, b, b_category),
{
    let places = rules.location_keywords@.map_values(|t: String| t@);
    lemma_first_mentioned_at(places, a, i);
    lemma_first_mentioned_at(places, b, j);
    lemma_mentions_any_words(rules.negation_words@, a);
    lemma_mentions_any_words(rules.negation_words@, b);
}

proof fn lemma_mentions_any_words(words: Seq<String>, text: Seq<char>)
    ensures
        mentions_any(words.map_values(|t: String| t@), text) == (exists|i: int| 0 <= i < words.len() && has_substring(text, #[trigger] words[i]@)),
{
    let v = words.map_values(|t: String| t@);
    if mentions_any(v, text) {
        let i = choose|i: int| 0 <= i < v.len() && has_substring(text, #[trigger] v[i]);
        assert(has_substring(text, words[i]@));
    }
    if exists|i: int| 0 <= i < words.len() && has_substring(text, #[trigger] words[i]@) {
        let i = choose|i: int| 0 <= i < words.len() && has_substring(text, #[trigger] words[i]@);
        assert(has_substring(text, v[i]));
    }
}

proof fn lemma_none_mentioned(keywords: Seq<Seq<char>>, text: Seq<char>)
    requires
        forall|k: int| 0 <= k < keywords.len() ==> !has_substring(text, #[trigger] keywords[k]),
    ensures
        first_mentioned(keywords, text) is None,
    decreases keywords.len(),
{
    if keywords.len() > 0 {
        let rest = keywords.drop_first();
        assert forall|k: int| 0 <= k < rest.len() implies !has_substring(text, #[trigger] rest[k]) by {
            assert(rest[k] == keywords[k + 1]);
        }
        assert(!has_substring(text, keywords[0]));
        lemma_none_mentioned(rest, text);
    }
}

proof fn lemma_first_mentioned_at(keywords: Seq<Seq<char>>, text: Seq<char>, i: int)
    requires
        0 <= i < keywords.len(),
        has_substring(text, keywords[i]),
        forall|k: int| 0 <= k < i ==> !has_substring(text, #[trigger] keywords[k]),
    ensures
        first_mentioned(keywords, text) == Some(keywords[i]),
    decreases i,
{
    if i > 0 {
        let rest = keywords.drop_first();
        assert forall|k: int| 0 <= k < i - 1 implies !has_substring(text, #[trigger] rest[k]) by {
            assert(rest[k] == keywords[k + 1]);
        }
        assert(!has_substring(text, keywords[0]));
        lemma_first_mentioned_at(rest, text, i - 1);
    }
}

} // verus!
