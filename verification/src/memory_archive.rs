//! Archiving memory: ranking archived entries for a query, choosing the key facts of a
//! group of facts, and planning the archived entry each group of facts becomes.

use vstd::prelude::*;
use crate::manage_tasks::{instant_before, timestamp_before};
use crate::memory::{category_name, FactCategory};
use crate::session::UtcTimestamp;
use crate::memory_clusters::{cluster_facts, cluster_members, clusters_of, lemma_clusters_members_below, positions, text_set};
use crate::memory_segments::{join_with_spaces, joined_with_spaces};
use crate::numbers::{decimal, u64_to_decimal};
use crate::semantic_terms::{are_semantic_terms_of, build_sparse_vector, extract_semantic_terms, is_sparse_vector_of, SparseVector};
use crate::text::str_eq;

verus! {

/// What orders items best first: a higher `primary`, then a higher `secondary`, then a
/// later `at`.
#[derive(Debug, Clone, Copy, PartialEq, Eq, Structural)]
pub struct RankKey {
    pub primary: u64,
    pub secondary: u64,
    pub at: UtcTimestamp,
}

/// `a` ranks strictly above `b`.
pub open spec fn ranks_above(a: RankKey, b: RankKey) -> bool {
    ||| a.primary > b.primary
    ||| a.primary == b.primary && a.secondary > b.secondary
    ||| a.primary == b.primary && a.secondary == b.secondary && instant_before(b.at, a.at)
}

/// Whether `a` ranks strictly above `b`.
pub fn rank_key_above(a: RankKey, b: RankKey) -> (r: bool)
    ensures
        r == ranks_above(a, b),
{
    a.primary > b.primary || (a.primary == b.primary && a.secondary > b.secondary) || (a.primary == b.primary
        && a.secondary == b.secondary && timestamp_before(b.at, a.at))
}

/// The first place at or after `j` in `order` whose item `key` ranks above, or the length.
pub open spec fn first_below(keys: Seq<RankKey>, order: Seq<int>, key: RankKey, j: int) -> int
    decreases order.len() - j,
{
    if j >= order.len() {
        order.len() as int
    } else if ranks_above(key, keys[order[j]]) {
        j
    } else {
        first_below(keys, order, key, j + 1)
    }
}

/// The positions of the first `n` items ordered best first by their keys; items of equal
/// keys keep their order.
pub open spec fn best_first_order(keys: Seq<RankKey>, n: nat) -> Seq<int>
    decreases n,
{
    if n == 0 {
        Seq::empty()
    } else {
        let o = best_first_order(keys, (n - 1) as nat);
        o.insert(first_below(keys, o, keys[n - 1], 0), n - 1)
    }
}

proof fn lemma_first_below(keys: Seq<RankKey>, order: Seq<int>, key: RankKey, j: int)
    requires
        0 <= j <= order.len(),
    ensures
        j <= first_below(keys, order, key, j) <= order.len(),
        forall|t: int| j <= t < first_below(keys, order, key, j) ==> !ranks_above(key, #[trigger] keys[order[t]]),
        first_below(keys, order, key, j) < order.len() ==> ranks_above(key, keys[order[first_below(keys, order, key, j)]]),
    decreases order.len() - j,
{
    if j < order.len() && !ranks_above(key, keys[order[j]]) {
        lemma_first_below(keys, order, key, j + 1);
    }
}

/// Ordering items best first gives each of the first `n` positions exactly once, no item
/// after one it ranks above, and items of equal keys in their given order.
pub proof fn law_best_first_order(keys: Seq<RankKey>, n: nat)
    requires
        n <= keys.len(),
    ensures
        best_first_order(keys, n).len() == n,
        forall|j: int| 0 <= j < n ==> 0 <= #[trigger] best_first_order(keys, n)[j] < n,
        best_first_order(keys, n).no_duplicates(),
        forall|i: int, j: int| 0 <= i < j < n ==> !ranks_above(
            keys[#[trigger] best_first_order(keys, n)[j]],
            keys[#[trigger] best_first_order(keys, n)[i]],
        ),
        forall|i: int, j: int| 0 <= i < j < n && keys[#[trigger] best_first_order(keys, n)[i]]
            == keys[#[trigger] best_first_order(keys, n)[j]] ==> best_first_order(keys, n)[i] < best_first_order(keys, n)[j],
    decreases n,
{
    if n > 0 {
        let m = (n - 1) as nat;
        law_best_first_order(keys, m);
        let o = best_first_order(keys, m);
        let key = keys[m as int];
        let p = first_below(keys, o, key, 0);
        lemma_first_below(keys, o, key, 0);
        let out = o.insert(p, m as int);
        assert(out == best_first_order(keys, n));
        assert forall|j: int| 0 <= j < n implies 0 <= #[trigger] out[j] < n by {
            if j < p {
                assert(out[j] == o[j]);
            } else if j > p {
                assert(out[j] == o[j - 1]);
            }
        }
        assert forall|i: int, j: int| 0 <= i < out.len() && 0 <= j < out.len() && i != j implies out[i] != out[j] by {
            if i != p && j != p {
                let oi = if i < p { i } else { i - 1 };
                let oj = if j < p { j } else { j - 1 };
                assert(out[i] == o[oi] && out[j] == o[oj]);
            } else if i == p {
                let oj = if j < p { j } else { j - 1 };
                assert(out[j] == o[oj]);
            } else {
                let oi = if i < p { i } else { i - 1 };
                assert(out[i] == o[oi]);
            }
        }
        assert forall|i: int, j: int| 0 <= i < j < n implies !ranks_above(keys[#[trigger] out[j]], keys[#[trigger] out[i]])
            && (keys[out[i]] == keys[out[j]] ==> out[i] < out[j]) by {
            if j < p {
                assert(out[i] == o[i] && out[j] == o[j]);
            } else if j == p {
                assert(out[i] == o[i]);
            } else if i == p {
                assert(out[j] == o[j - 1]);
                assert(!ranks_above(keys[o[j - 1]], keys[o[p]]));
            } else if i < p {
                assert(out[i] == o[i] && out[j] == o[j - 1]);
            } else {
                assert(out[i] == o[i - 1] && out[j] == o[j - 1]);
            }
        }
    }
}

fn below_slot(keys: &Vec<RankKey>, order: &Vec<usize>, key: RankKey) -> (r: usize)
    requires
        forall|j: int| 0 <= j < order@.len() ==> #[trigger] order@[j] < keys@.len(),
    ensures
        r == first_below(keys@, order@.map_values(|p: usize| p as int), key, 0),
{
    let ghost o = order@.map_values(|p: usize| p as int);
    let mut k: usize = 0;
    while k < order.len() && !rank_key_above(key, keys[order[k]])
        invariant
            k <= order@.len(),
            o == order@.map_values(|p: usize| p as int),
            forall|j: int| 0 <= j < order@.len() ==> #[trigger] order@[j] < keys@.len(),
            first_below(keys@, o, key, 0) == first_below(keys@, o, key, k as int),
        decreases order@.len() - k,
    {
        k = k + 1;
    }
    k
}

/// The positions of the items with these keys, best first; items of equal keys keep
/// their order.
pub fn best_first_positions(keys: &Vec<RankKey>) -> (r: Vec<usize>)
    ensures
        r@.map_values(|p: usize| p as int) == best_first_order(keys@, keys@.len()),
{
    let mut out: Vec<usize> = Vec::new();
    let mut i: usize = 0;
    while i < keys.len()
        invariant
            i <= keys@.len(),
            out@.map_values(|p: usize| p as int) == best_first_order(keys@, i as nat),
        decreases keys@.len() - i,
    {
        proof {
            law_best_first_order(keys@, i as nat);
            assert forall|j: int| 0 <= j < out@.len() implies #[trigger] out@[j] < keys@.len() by {
                assert(out@.map_values(|p: usize| p as int)[j] == out@[j] as int);
            }
        }
        let k = below_slot(keys, &out, keys[i]);
        proof {
            lemma_first_below(keys@, out@.map_values(|p: usize| p as int), keys@[i as int], 0);
        }
        let ghost before = out@;
        out.insert(k, i);
        proof {
            assert(out@.map_values(|p: usize| p as int) =~= before.map_values(|p: usize| p as int).insert(k as int, i as int));
        }
        i = i + 1;
    }
    out
}


/// The archived entries kept for a query, by position: best first by their keys (the
/// similarity rank, then the later entry), leaving out entries without key facts when
/// the query is blank, at most `limit` of them.
pub open spec fn archived_ranking(keys: Seq<RankKey>, has_key_facts: Seq<bool>, query_blank: bool, limit: nat) -> Seq<int> {
    let kept = best_first_order(keys, keys.len()).filter(|p: int| !query_blank || has_key_facts[p]);
    if kept.len() <= limit {
        kept
    } else {
        kept.take(limit as int)
    }
}

/// Ranks archived entries for a query: each entry's key holds its similarity rank (an
/// integer that orders entries as their similarities do) and when it was made; see
/// [`archived_ranking`].
pub fn rank_archived_positions(keys: &Vec<RankKey>, has_key_facts: &Vec<bool>, query_blank: bool, limit: usize) -> (r: Vec<usize>)
    requires
        keys@.len() == has_key_facts@.len(),
    ensures
        r@.map_values(|p: usize| p as int) == archived_ranking(keys@, has_key_facts@, query_blank, limit as nat),
{
    let order = best_first_positions(keys);
    let ghost o = order@.map_values(|p: usize| p as int);
    let ghost f = |p: int| !query_blank || has_key_facts@[p];
    proof {
        law_best_first_order(keys@, keys@.len());
        assert forall|j: int| 0 <= j < order@.len() implies #[trigger] order@[j] < keys@.len() by {
            assert(o[j] == order@[j] as int);
        }
    }
    let mut out: Vec<usize> = Vec::new();
    let mut i: usize = 0;
    while i < order.len() && out.len() < limit
        invariant
            i <= order@.len(),
            keys@.len() == has_key_facts@.len(),
            o == order@.map_values(|p: usize| p as int),
            f == (|p: int| !query_blank || has_key_facts@[p]),
            forall|j: int| 0 <= j < order@.len() ==> #[trigger] order@[j] < keys@.len(),
            out@.map_values(|p: usize| p as int) == o.take(i as int).filter(f),
            out@.len() <= limit,
        decreases order@.len() - i,
    {
        let ghost before = out@.map_values(|p: usize| p as int);
        proof {
            o.take(i as int).lemma_filter_push(o[i as int], f);
            assert(o.take(i + 1) =~= o.take(i as int).push(o[i as int]));
        }
        let p = order[i];
        if !query_blank || has_key_facts[p] {
            out.push(p);
            assert(out@.map_values(|p: usize| p as int) =~= before.push(p as int));
        } else {
            assert(out@.map_values(|p: usize| p as int) =~= before);
        }
        i = i + 1;
    }
    proof {
        let all = o.filter(f);
        Seq::filter_distributes_over_add(o.take(i as int), o.skip(i as int), f);
        assert(o.take(i as int) + o.skip(i as int) =~= o);
        let pre = o.take(i as int).filter(f);
        assert(all == pre + o.skip(i as int).filter(f));
        if i == order@.len() {
            assert(o.skip(i as int).filter(f).len() == 0) by {
                o.skip(i as int).lemma_filter_len(f);
            }
            assert(all =~= pre);
        } else {
            assert(pre.len() == limit);
            assert(all.take(limit as int) =~= pre);
        }
        assert(o == best_first_order(keys@, keys@.len()));
    }
    out
}

/// A fact as archiving reads it: its id, content and category, whether it is mandatory,
/// its confidence rank (an integer that orders facts as their confidences do), and when
/// it was made.
#[derive(Debug)]
pub struct ArchiveFact {
    pub id: String,
    pub content: String,
    pub category: FactCategory,
    pub mandatory: bool,
    pub confidence_rank: u64,
    pub created_at: UtcTimestamp,
}

impl ArchiveFact {
    /// A copy of the fact.
    pub fn duplicate(&self) -> (r: Self)
        ensures
            r == *self,
    {
        ArchiveFact {
            id: self.id.clone(),
            content: self.content.clone(),
            category: self.category,
            mandatory: self.mandatory,
            confidence_rank: self.confidence_rank,
            created_at: self.created_at,
        }
    }
}

/// The key a fact is ranked by for key-fact selection: mandatory first, then the higher
/// confidence, then the later fact.
pub open spec fn archive_fact_key(f: ArchiveFact) -> RankKey {
    RankKey { primary: if f.mandatory { 1 } else { 0 }, secondary: f.confidence_rank, at: f.created_at }
}

pub open spec fn archive_fact_keys(facts: Seq<ArchiveFact>) -> Seq<RankKey> {
    facts.map_values(|f: ArchiveFact| archive_fact_key(f))
}

/// How many of the facts are mandatory.
pub open spec fn mandatory_count(facts: Seq<ArchiveFact>) -> nat {
    facts.filter(|f: ArchiveFact| f.mandatory).len()
}

/// Some chosen fact has the id `id`.
pub open spec fn id_chosen(facts: Seq<ArchiveFact>, chosen: Seq<int>, id: Seq<char>) -> bool {
    exists|j: int| 0 <= j < chosen.len() && facts[#[trigger] chosen[j]].id@ == id
}

/// Key facts chosen from the first `k` places of `order`: each fact in turn unless one with
/// its id is chosen already, until at least `target` (and at least one) are chosen.
pub open spec fn choose_key_facts(facts: Seq<ArchiveFact>, order: Seq<int>, target: nat, k: nat) -> Seq<int>
    decreases k,
{
    if k == 0 {
        Seq::empty()
    } else {
        let s = choose_key_facts(facts, order, target, (k - 1) as nat);
        if s.len() > 0 && s.len() >= target {
            s
        } else if id_chosen(facts, s, facts[order[k - 1]].id@) {
            s
        } else {
            s.push(order[k - 1])
        }
    }
}

/// The key facts of a group of facts, by position: best first by [`archive_fact_key`],
/// facts with an id already chosen skipped, until `limit` of them or all mandatory ones
/// (whichever is more) are chosen.
pub open spec fn key_fact_choice(facts: Seq<ArchiveFact>, limit: nat) -> Seq<int> {
    let target = if limit >= mandatory_count(facts) { limit } else { mandatory_count(facts) };
    choose_key_facts(facts, best_first_order(archive_fact_keys(facts), facts.len()), target, facts.len())
}

/// When the facts' ids are distinct, the key facts are the leading facts of the best-first
/// order: as many as `limit` or the mandatory facts, whichever is more, and at least one.
pub proof fn law_key_facts_lead_the_order(facts: Seq<ArchiveFact>, order: Seq<int>, target: nat, k: nat)
    requires
        k <= order.len(),
        order.no_duplicates(),
        forall|j: int| 0 <= j < order.len() ==> 0 <= #[trigger] order[j] < facts.len(),
        forall|a: int, b: int| 0 <= a < b < facts.len() ==> facts[a].id@ != facts[b].id@,
    ensures
        choose_key_facts(facts, order, target, k) == order.take(
            if k <= (if target >= 1 { target } else { 1 }) { k as int } else { if target >= 1 { target as int } else { 1 } },
        ),
    decreases k,
{
    let t: int = if target >= 1 { target as int } else { 1 };
    if k > 0 {
        law_key_facts_lead_the_order(facts, order, target, (k - 1) as nat);
        let s = choose_key_facts(facts, order, target, (k - 1) as nat);
        if s.len() < t {
            assert(s == order.take(k - 1));
            if id_chosen(facts, s, facts[order[k - 1]].id@) {
                let j = choose|j: int| 0 <= j < s.len() && facts[#[trigger] s[j]].id@ == facts[order[k - 1]].id@;
                assert(s[j] == order[j]);
                assert(order[j] != order[k - 1]);
                if order[j] < order[k - 1] {
                    assert(facts[order[j]].id@ != facts[order[k - 1]].id@);
                } else {
                    assert(facts[order[k - 1]].id@ != facts[order[j]].id@);
                }
            }
            assert(order.take(k - 1).push(order[k - 1]) =~= order.take(k as int));
        }
    }
}

fn id_taken(facts: &Vec<ArchiveFact>, chosen: &Vec<usize>, id: &String) -> (r: bool)
    requires
        forall|j: int| 0 <= j < chosen@.len() ==> #[trigger] chosen@[j] < facts@.len(),
    ensures
        r == id_chosen(facts@, chosen@.map_values(|p: usize| p as int), id@),
{
    let ghost c = chosen@.map_values(|p: usize| p as int);
    let mut j: usize = 0;
    while j < chosen.len()
        invariant
            j <= chosen@.len(),
            c == chosen@.map_values(|p: usize| p as int),
            forall|t: int| 0 <= t < chosen@.len() ==> #[trigger] chosen@[t] < facts@.len(),
            forall|t: int| 0 <= t < j ==> facts@[#[trigger] c[t]].id@ != id@,
        decreases chosen@.len() - j,
    {
        if str_eq(facts[chosen[j]].id.as_str(), id.as_str()) {
            assert(facts@[c[j as int]].id@ == id@);
            return true;
        }
        j = j + 1;
    }
    false
}

/// Chooses the key facts of a group of facts, as [`key_fact_choice`] says.
pub fn select_key_facts(facts: &Vec<ArchiveFact>, limit: usize) -> (r: Vec<usize>)
    ensures
        r@.map_values(|p: usize| p as int) == key_fact_choice(facts@, limit as nat),
{
    let mut keys: Vec<RankKey> = Vec::new();
    let mut mandatory: usize = 0;
    let mut i: usize = 0;
    let ghost g = |f: ArchiveFact| f.mandatory;
    while i < facts.len()
        invariant
            i <= facts@.len(),
            g == (|f: ArchiveFact| f.mandatory),
            keys@ == archive_fact_keys(facts@.take(i as int)),
            mandatory == facts@.take(i as int).filter(g).len(),
            mandatory <= i,
        decreases facts@.len() - i,
    {
        proof {
            facts@.take(i as int).lemma_filter_push(facts@[i as int], g);
            assert(facts@.take(i + 1) =~= facts@.take(i as int).push(facts@[i as int]));
        }
        let f = &facts[i];
        keys.push(RankKey { primary: if f.mandatory { 1 } else { 0 }, secondary: f.confidence_rank, at: f.created_at });
        assert(keys@ =~= archive_fact_keys(facts@.take(i + 1)));
        if f.mandatory {
            mandatory = mandatory + 1;
        }
        i = i + 1;
    }
    assert(facts@.take(facts@.len() as int) =~= facts@);
    let target = if limit >= mandatory { limit } else { mandatory };
    let order = best_first_positions(&keys);
    let ghost o = order@.map_values(|p: usize| p as int);
    proof {
        law_best_first_order(keys@, keys@.len());
        assert forall|j: int| 0 <= j < order@.len() implies #[trigger] order@[j] < facts@.len() by {
            assert(o[j] == order@[j] as int);
        }
    }
    let mut chosen: Vec<usize> = Vec::new();
    let mut k: usize = 0;
    while k < order.len()
        invariant
            k <= order@.len(),
            order@.len() == facts@.len(),
            o == order@.map_values(|p: usize| p as int),
            forall|j: int| 0 <= j < order@.len() ==> #[trigger] order@[j] < facts@.len(),
            forall|j: int| 0 <= j < chosen@.len() ==> #[trigger] chosen@[j] < facts@.len(),
            chosen@.map_values(|p: usize| p as int) == choose_key_facts(facts@, o, target as nat, k as nat),
        decreases order@.len() - k,
    {
        let ghost before = chosen@.map_values(|p: usize| p as int);
        if chosen.len() > 0 && chosen.len() >= target {
        } else if id_taken(facts, &chosen, &facts[order[k]].id) {
        } else {
            chosen.push(order[k]);
            assert(chosen@.map_values(|p: usize| p as int) =~= before.push(o[k as int]));
        }
        k = k + 1;
    }
    chosen
}

/// The summary of a group of facts: each key fact as `[category] content`, joined by `; `.
pub open spec fn key_fact_summary(facts: Seq<ArchiveFact>, chosen: Seq<int>) -> Seq<char>
    decreases chosen.len(),
{
    if chosen.len() == 0 {
        Seq::empty()
    } else {
        let f = facts[chosen.last()];
        let line = "["@ + category_name(f.category) + "] "@ + f.content@;
        if chosen.len() == 1 {
            line
        } else {
            key_fact_summary(facts, chosen.drop_last()) + "; "@ + line
        }
    }
}

/// Writes the summary of the chosen key facts.
pub fn summarize_key_facts(facts: &Vec<ArchiveFact>, chosen: &Vec<usize>) -> (r: String)
    requires
        forall|j: int| 0 <= j < chosen@.len() ==> #[trigger] chosen@[j] < facts@.len(),
    ensures
        r@ == key_fact_summary(facts@, chosen@.map_values(|p: usize| p as int)),
{
    let ghost c = chosen@.map_values(|p: usize| p as int);
    let mut out = String::new();
    let mut i: usize = 0;
    while i < chosen.len()
        invariant
            i <= chosen@.len(),
            c == chosen@.map_values(|p: usize| p as int),
            forall|j: int| 0 <= j < chosen@.len() ==> #[trigger] chosen@[j] < facts@.len(),
            out@ == key_fact_summary(facts@, c.take(i as int)),
        decreases chosen@.len() - i,
    {
        let f = &facts[chosen[i]];
        if i > 0 {
            out.append("; ");
        }
        out.append("[");
        out.append(f.category.as_str());
        out.append("] ");
        out.append(f.content.as_str());
        proof {
            assert(c.take(i + 1).drop_last() =~= c.take(i as int));
            assert(c.take(i + 1).last() == c[i as int]);
            if i == 0 {
                assert(Seq::<char>::empty() + "["@ =~= "["@);
            }
        }
        i = i + 1;
    }
    assert(c.take(chosen@.len() as int) =~= c);
    out
}

/// The archived entry a group of facts becomes: its facts and its key facts (positions
/// among all the facts), its summary, its semantic terms and its term vector.
#[derive(Debug)]
pub struct ArchivedEntryPlan {
    pub members: Vec<usize>,
    pub key_facts: Vec<usize>,
    pub summary: String,
    pub semantic_terms: Vec<String>,
    pub vector: SparseVector,
}

/// The number of key facts of an archived entry.
pub const ARCHIVED_KEY_FACTS: usize = 3;

/// The facts at these positions.
pub open spec fn facts_at(facts: Seq<ArchiveFact>, at: Seq<int>) -> Seq<ArchiveFact> {
    at.map_values(|p: int| facts[p])
}

/// The contents of the facts at these positions.
pub open spec fn contents_at(facts: Seq<ArchiveFact>, at: Seq<int>) -> Seq<Seq<char>> {
    at.map_values(|p: int| facts[p].content@)
}

/// `plan` is the archived entry of the group of facts at `members`: its key facts are
/// those [`key_fact_choice`] picks from the group, its summary their summary, its terms the
/// semantic terms of the group's contents joined by spaces, and its vector the sparse
/// vector of the summary and the key facts' contents, joined by spaces.
pub open spec fn plans_entry(facts: Seq<ArchiveFact>, members: Seq<int>, plan: ArchivedEntryPlan) -> bool {
    let group = facts_at(facts, members);
    let chosen = key_fact_choice(group, ARCHIVED_KEY_FACTS as nat);
    let key_facts = chosen.map_values(|j: int| members[j]);
    &&& positions(plan.members@) == members
    &&& positions(plan.key_facts@) == key_facts
    &&& plan.summary@ == key_fact_summary(group, chosen)
    &&& are_semantic_terms_of(joined_with_spaces(contents_at(facts, members)), plan.semantic_terms@)
    &&& is_sparse_vector_of(
        plan.summary@ + " "@ + joined_with_spaces(contents_at(facts, key_facts)),
        plan.vector.dimensions@,
        plan.vector.values@,
    )
}

fn facts_at_positions(facts: &Vec<ArchiveFact>, at: &Vec<usize>) -> (r: Vec<ArchiveFact>)
    requires
        forall|j: int| 0 <= j < at@.len() ==> #[trigger] at@[j] < facts@.len(),
    ensures
        r@ == facts_at(facts@, positions(at@)),
{
    let mut out: Vec<ArchiveFact> = Vec::new();
    let mut i: usize = 0;
    while i < at.len()
        invariant
            i <= at@.len(),
            forall|j: int| 0 <= j < at@.len() ==> #[trigger] at@[j] < facts@.len(),
            out@ == facts_at(facts@, positions(at@.take(i as int))),
        decreases at@.len() - i,
    {
        out.push(facts[at[i]].duplicate());
        assert(out@ =~= facts_at(facts@, positions(at@.take(i + 1))));
        i = i + 1;
    }
    assert(at@.take(at@.len() as int) =~= at@);
    out
}

fn contents_at_positions(facts: &Vec<ArchiveFact>, at: &Vec<usize>) -> (r: Vec<String>)
    requires
        forall|j: int| 0 <= j < at@.len() ==> #[trigger] at@[j] < facts@.len(),
    ensures
        r@.map_values(|t: String| t@) == contents_at(facts@, positions(at@)),
{
    let mut out: Vec<String> = Vec::new();
    let mut i: usize = 0;
    while i < at.len()
        invariant
            i <= at@.len(),
            forall|j: int| 0 <= j < at@.len() ==> #[trigger] at@[j] < facts@.len(),
            out@.map_values(|t: String| t@) == contents_at(facts@, positions(at@.take(i as int))),
        decreases at@.len() - i,
    {
        let ghost before = out@.map_values(|t: String| t@);
        let c = facts[at[i]].content.clone();
        out.push(c);
        assert(out@.map_values(|t: String| t@) =~= before.push(facts@[at@[i as int] as int].content@));
        assert(positions(at@.take(i + 1)) =~= positions(at@.take(i as int)).push(at@[i as int] as int));
        assert(out@.map_values(|t: String| t@) =~= contents_at(facts@, positions(at@.take(i + 1))));
        i = i + 1;
    }
    assert(at@.take(at@.len() as int) =~= at@);
    out
}

/// Plans the archived entry of the group of facts at `members`.
pub fn plan_archived_entry(facts: &Vec<ArchiveFact>, members: Vec<usize>) -> (r: ArchivedEntryPlan)
    requires
        forall|j: int| 0 <= j < members@.len() ==> #[trigger] members@[j] < facts@.len(),
    ensures
        plans_entry(facts@, positions(members@), r),
{
    let ghost m = positions(members@);
    let group = facts_at_positions(facts, &members);
    let chosen = select_key_facts(&group, ARCHIVED_KEY_FACTS);
    let ghost c = positions(chosen@);
    proof {
        law_best_first_order(archive_fact_keys(group@), group@.len());
        lemma_chosen_in_range(group@, ARCHIVED_KEY_FACTS as nat);
        assert forall|j: int| 0 <= j < chosen@.len() implies #[trigger] chosen@[j] < group@.len() by {
            assert(c[j] == chosen@[j] as int);
        }
    }
    let summary = summarize_key_facts(&group, &chosen);
    let mut key_facts: Vec<usize> = Vec::new();
    let mut i: usize = 0;
    while i < chosen.len()
        invariant
            i <= chosen@.len(),
            m == positions(members@),
            c == positions(chosen@),
            group@.len() == members@.len(),
            forall|j: int| 0 <= j < members@.len() ==> #[trigger] members@[j] < facts@.len(),
            forall|j: int| 0 <= j < chosen@.len() ==> #[trigger] chosen@[j] < group@.len(),
            positions(key_facts@) == c.take(i as int).map_values(|j: int| m[j]),
            forall|j: int| 0 <= j < key_facts@.len() ==> #[trigger] key_facts@[j] < facts@.len(),
        decreases chosen@.len() - i,
    {
        let ghost before = positions(key_facts@);
        key_facts.push(members[chosen[i]]);
        assert(positions(key_facts@) =~= before.push(m[c[i as int]]));
        assert(c.take(i + 1) =~= c.take(i as int).push(c[i as int]));
        assert(positions(key_facts@) =~= c.take(i + 1).map_values(|j: int| m[j]));
        i = i + 1;
    }
    assert(c.take(chosen@.len() as int) =~= c);
    let contents = contents_at_positions(facts, &members);
    let terms = extract_semantic_terms(join_with_spaces(&contents).as_str());
    let key_contents = contents_at_positions(facts, &key_facts);
    let mut vector_text = summary.clone();
    vector_text.append(" ");
    vector_text.append(join_with_spaces(&key_contents).as_str());
    let vector = build_sparse_vector(vector_text.as_str());
    ArchivedEntryPlan { members, key_facts, summary, semantic_terms: terms, vector }
}

proof fn lemma_chosen_in_range(facts: Seq<ArchiveFact>, limit: nat)
    ensures
        forall|j: int| 0 <= j < key_fact_choice(facts, limit).len() ==> 0 <= #[trigger] key_fact_choice(facts, limit)[j] < facts.len(),
{
    let target = if limit >= mandatory_count(facts) { limit } else { mandatory_count(facts) };
    let o = best_first_order(archive_fact_keys(facts), facts.len());
    law_best_first_order(archive_fact_keys(facts), facts.len());
    lemma_choose_in_order(facts, o, target, facts.len());
}

proof fn lemma_choose_in_order(facts: Seq<ArchiveFact>, order: Seq<int>, target: nat, k: nat)
    requires
        k <= order.len(),
    ensures
        forall|j: int| 0 <= j < choose_key_facts(facts, order, target, k).len() ==> exists|t: int| 0 <= t < k && order[t] == #[trigger] choose_key_facts(facts, order, target, k)[j],
    decreases k,
{
    if k > 0 {
        lemma_choose_in_order(facts, order, target, (k - 1) as nat);
        let s = choose_key_facts(facts, order, target, (k - 1) as nat);
        let out = choose_key_facts(facts, order, target, k);
        assert forall|j: int| 0 <= j < out.len() implies exists|t: int| 0 <= t < k && order[t] == #[trigger] out[j] by {
            if j < s.len() {
                assert(out[j] == s[j]);
                let t = choose|t: int| 0 <= t < k - 1 && order[t] == #[trigger] s[j];
            } else {
                assert(out[j] == order[k - 1]);
            }
        }
    }
}

/// `plans` are the archived entries of `facts` when each fact's semantic terms are
/// `terms`: the terms are those of its content, the facts are grouped by
/// [`cluster_facts`] over their categories and terms, and each group becomes one entry.
pub open spec fn segment_planned(facts: Seq<ArchiveFact>, terms: Seq<Seq<String>>, plans: Seq<ArchivedEntryPlan>) -> bool {
    &&& terms.len() == facts.len()
    &&& forall|i: int| 0 <= i < facts.len() ==> are_semantic_terms_of(facts[i].content@, #[trigger] terms[i])
    &&& {
        let groups = cluster_members(clusters_of(
            facts.map_values(|f: ArchiveFact| f.category),
            terms.map_values(|t: Seq<String>| t.map_values(|s: String| s@).to_set()),
            facts.len(),
        ));
        &&& plans.len() == groups.len()
        &&& forall|g: int| 0 <= g < groups.len() ==> plans_entry(facts, groups[g], #[trigger] plans[g])
    }
}

/// Plans the archived entries of a set of facts: the facts are grouped by
/// [`cluster_facts`] over their categories and the semantic terms of their contents, and
/// each group becomes one entry; no facts give no entries.
pub fn build_archived_segment(facts: &Vec<ArchiveFact>) -> (r: Vec<ArchivedEntryPlan>)
    ensures
        exists|terms: Seq<Seq<String>>| #[trigger] segment_planned(facts@, terms, r@),
{
    let mut categories: Vec<FactCategory> = Vec::new();
    let mut terms: Vec<Vec<String>> = Vec::new();
    let mut i: usize = 0;
    while i < facts.len()
        invariant
            i <= facts@.len(),
            categories@ == facts@.take(i as int).map_values(|f: ArchiveFact| f.category),
            terms@.len() == i,
            forall|j: int| 0 <= j < i ==> are_semantic_terms_of(facts@[j].content@, #[trigger] terms@[j]@),
        decreases facts@.len() - i,
    {
        categories.push(facts[i].category);
        terms.push(extract_semantic_terms(facts[i].content.as_str()));
        assert(categories@ =~= facts@.take(i + 1).map_values(|f: ArchiveFact| f.category));
        i = i + 1;
    }
    assert(facts@.take(facts@.len() as int) =~= facts@);
    let ghost tv = terms@.map_values(|t: Vec<String>| t@);
    let ghost sets = terms@.map_values(|t: Vec<String>| text_set(t@));
    assert(tv.map_values(|t: Seq<String>| t.map_values(|s: String| s@).to_set()) =~= sets);
    let groups = cluster_facts(&categories, &terms);
    let ghost gm = cluster_members(clusters_of(categories@, sets, terms@.len()));
    proof {
        lemma_clusters_members_below(categories@, sets, terms@.len() as nat);
    }
    let mut out: Vec<ArchivedEntryPlan> = Vec::new();
    let mut g: usize = 0;
    while g < groups.len()
        invariant
            g <= groups@.len(),
            groups@.map_values(|v: Vec<usize>| positions(v@)) == gm,
            gm == cluster_members(clusters_of(categories@, sets, terms@.len())),
            terms@.len() == facts@.len(),
            forall|h: int| 0 <= h < clusters_of(categories@, sets, terms@.len() as nat).len() ==> crate::memory_clusters::members_below(
                #[trigger] clusters_of(categories@, sets, terms@.len() as nat)[h].members,
                terms@.len() as int,
            ),
            out@.len() == g,
            forall|h: int| 0 <= h < g ==> plans_entry(facts@, gm[h], #[trigger] out@[h]),
        decreases groups@.len() - g,
    {
        let members = copy_positions(&groups[g]);
        proof {
            assert(groups@.map_values(|v: Vec<usize>| positions(v@)).len() == groups@.len());
            assert(gm.len() == clusters_of(categories@, sets, terms@.len() as nat).len());
            assert(gm[g as int] == positions(groups@[g as int]@));
            assert(gm[g as int] == clusters_of(categories@, sets, terms@.len() as nat)[g as int].members);
            assert forall|j: int| 0 <= j < members@.len() implies #[trigger] members@[j] < facts@.len() by {
                assert(positions(members@)[j] == members@[j] as int);
            }
        }
        let plan = plan_archived_entry(facts, members);
        out.push(plan);
        g = g + 1;
    }
    proof {
        assert(gm.len() == groups@.len());
        assert(tv.len() == facts@.len());
        assert forall|i: int| 0 <= i < facts@.len() implies are_semantic_terms_of(facts@[i].content@, #[trigger] tv[i]) by {
            assert(tv[i] == terms@[i]@);
        }
        assert(categories@ == facts@.map_values(|f: ArchiveFact| f.category));
        assert(segment_planned(facts@, tv, out@));
    }
    out
}

fn copy_positions(v: &Vec<usize>) -> (r: Vec<usize>)
    ensures
        r@ == v@,
{
    let mut out: Vec<usize> = Vec::new();
    let mut i: usize = 0;
    while i < v.len()
        invariant
            i <= v@.len(),
            out@ == v@.take(i as int),
        decreases v@.len() - i,
    {
        out.push(v[i]);
        assert(out@ =~= v@.take(i + 1));
        i = i + 1;
    }
    assert(v@.take(v@.len() as int) =~= v@);
    out
}

/// The note of a semantic compression.
pub open spec fn compression_reason_text(facts: nat, entries: nat) -> Seq<char> {
    "semantically compressed "@ + decimal(facts) + " facts into "@ + decimal(entries) + " archived entries"@
}

/// Writes the note of compressing `facts` facts into `entries` archived entries.
pub fn compression_reason(facts: u64, entries: u64) -> (r: String)
    ensures
        r@ == compression_reason_text(facts as nat, entries as nat),
{
    let mut s = "semantically compressed ".to_string();
    s.append(u64_to_decimal(facts).as_str());
    s.append(" facts into ");
    s.append(u64_to_decimal(entries).as_str());
    s.append(" archived entries");
    s
}
} // verus!
