//! The summaries a memory document keeps about its user (work, personal, top of mind)
//! and their history, how extracted updates change them, and how they are written into
//! prompts.

use vstd::prelude::*;
use crate::memory::FactStats;
use crate::session::UtcTimestamp;
use crate::text::{lowercase, str_eq, to_lowercase, trim, trim_whitespace};

verus! {

/// What the user is doing and thinking about.
#[derive(Debug, Clone, PartialEq, Eq)]
pub struct MemoryUserProfile {
    pub work_context: Option<String>,
    pub personal_context: Option<String>,
    pub top_of_mind: Option<String>,
    pub updated_at: Option<UtcTimestamp>,
}

/// What happened with the user over time.
#[derive(Debug, Clone, PartialEq, Eq)]
pub struct MemoryHistory {
    pub recent_months: Option<String>,
    pub earlier_context: Option<String>,
    pub long_term_background: Option<String>,
    pub updated_at: Option<UtcTimestamp>,
}

/// Bookkeeping of a memory document.
#[derive(Debug, Clone, Copy, PartialEq, Eq, Structural)]
pub struct MemoryMetadata {
    pub last_updated: Option<UtcTimestamp>,
    pub total_facts_processed: u64,
    pub facts_removed: u64,
    pub merge_count: u64,
}

/// A proposed new summary for one section.
#[derive(Debug, Clone, PartialEq, Eq)]
pub struct ContextUpdate {
    pub summary: String,
    pub should_update: bool,
}

/// Proposed changes to the user sections.
#[derive(Debug, Clone, PartialEq, Eq)]
pub struct UserUpdate {
    pub work_context: Option<ContextUpdate>,
    pub personal_context: Option<ContextUpdate>,
    pub top_of_mind: Option<ContextUpdate>,
}

/// Proposed changes to the history sections.
#[derive(Debug, Clone, PartialEq, Eq)]
pub struct HistoryUpdate {
    pub recent_months: Option<ContextUpdate>,
    pub earlier_context: Option<ContextUpdate>,
    pub long_term_background: Option<ContextUpdate>,
}

/// Whether an update replaces its section.
pub open spec fn applies(u: Option<ContextUpdate>) -> bool {
    u matches Some(c) && c.should_update
}

/// A section after an update: the new summary where the update applies, else as it was.
pub open spec fn updated_section(old: Option<Seq<char>>, u: Option<ContextUpdate>) -> Option<Seq<char>> {
    match u {
        Some(c) => if c.should_update {
            Some(c.summary@)
        } else {
            old
        },
        None => old,
    }
}

/// The text of an optional section.
pub open spec fn section_text(s: Option<String>) -> Option<Seq<char>> {
    match s {
        Some(t) => Some(t@),
        None => None,
    }
}

impl Default for MemoryUserProfile {
    fn default() -> (r: Self)
        ensures
            r.work_context is None,
            r.personal_context is None,
            r.top_of_mind is None,
            r.updated_at is None,
    {
        MemoryUserProfile { work_context: None, personal_context: None, top_of_mind: None, updated_at: None }
    }
}

impl Default for MemoryHistory {
    fn default() -> (r: Self)
        ensures
            r.recent_months is None,
            r.earlier_context is None,
            r.long_term_background is None,
            r.updated_at is None,
    {
        MemoryHistory { recent_months: None, earlier_context: None, long_term_background: None, updated_at: None }
    }
}

impl Default for MemoryMetadata {
    fn default() -> (r: Self)
        ensures
            r.last_updated is None,
            r.total_facts_processed == 0,
            r.facts_removed == 0,
            r.merge_count == 0,
    {
        MemoryMetadata { last_updated: None, total_facts_processed: 0, facts_removed: 0, merge_count: 0 }
    }
}

/// Replaces a section with an update's summary when the update says so.
fn apply_section(section: &mut Option<String>, update: Option<ContextUpdate>) -> (changed: bool)
    ensures
        changed == applies(update),
        section_text(*final(section)) == updated_section(section_text(*old(section)), update),
{
    match update {
        Some(c) => {
            if c.should_update {
                *section = Some(c.summary);
                true
            } else {
                false
            }
        },
        None => false,
    }
}

impl MemoryUserProfile {
    /// Applies an extracted update: each section the update marks for replacement takes
    /// its new summary, and the profile is stamped with `now` if any section changed.
    pub fn apply_update(&mut self, update: UserUpdate, now: UtcTimestamp)
        ensures
            section_text(final(self).work_context) == updated_section(
                section_text(old(self).work_context),
                update.work_context,
            ),
            section_text(final(self).personal_context) == updated_section(
                section_text(old(self).personal_context),
                update.personal_context,
            ),
            section_text(final(self).top_of_mind) == updated_section(
                section_text(old(self).top_of_mind),
                update.top_of_mind,
            ),
            final(self).updated_at == if applies(update.work_context) || applies(update.personal_context)
                || applies(update.top_of_mind) {
                Some(now)
            } else {
                old(self).updated_at
            },
    {
        let a = apply_section(&mut self.work_context, update.work_context);
        let b = apply_section(&mut self.personal_context, update.personal_context);
        let c = apply_section(&mut self.top_of_mind, update.top_of_mind);
        if a || b || c {
            self.updated_at = Some(now);
        }
    }
}

impl MemoryHistory {
    /// Applies an extracted update: each section the update marks for replacement takes
    /// its new summary, and the history is stamped with `now` if any section changed.
    pub fn apply_update(&mut self, update: HistoryUpdate, now: UtcTimestamp)
        ensures
            section_text(final(self).recent_months) == updated_section(
                section_text(old(self).recent_months),
                update.recent_months,
            ),
            section_text(final(self).earlier_context) == updated_section(
                section_text(old(self).earlier_context),
                update.earlier_context,
            ),
            section_text(final(self).long_term_background) == updated_section(
                section_text(old(self).long_term_background),
                update.long_term_background,
            ),
            final(self).updated_at == if applies(update.recent_months) || applies(update.earlier_context)
                || applies(update.long_term_background) {
                Some(now)
            } else {
                old(self).updated_at
            },
    {
        let a = apply_section(&mut self.recent_months, update.recent_months);
        let b = apply_section(&mut self.earlier_context, update.earlier_context);
        let c = apply_section(&mut self.long_term_background, update.long_term_background);
        if a || b || c {
            self.updated_at = Some(now);
        }
    }
}

impl MemoryMetadata {
    /// One fact was added at `now`.
    pub fn record_fact_added(&mut self, now: UtcTimestamp)
        requires
            old(self).total_facts_processed < u64::MAX,
        ensures
            final(self).total_facts_processed == old(self).total_facts_processed + 1,
            final(self).facts_removed == old(self).facts_removed,
            final(self).merge_count == old(self).merge_count,
            final(self).last_updated == Some(now),
    {
        self.total_facts_processed = self.total_facts_processed + 1;
        self.last_updated = Some(now);
    }

    /// `removed` facts were dropped at `now`.
    pub fn record_facts_removed(&mut self, removed: u64, now: UtcTimestamp)
        requires
            old(self).facts_removed + removed <= u64::MAX,
        ensures
            final(self).facts_removed == old(self).facts_removed + removed,
            final(self).total_facts_processed == old(self).total_facts_processed,
            final(self).merge_count == old(self).merge_count,
            final(self).last_updated == Some(now),
    {
        self.facts_removed = self.facts_removed + removed;
        self.last_updated = Some(now);
    }
}

impl MemoryMetadata {
    /// A management pass over the facts at `now`: every fact it looked at counts as
    /// processed, and every fact it dropped (duplicates, lost conflicts, evictions) as
    /// removed.
    pub fn record_management(&mut self, stats: &FactStats, now: UtcTimestamp)
        requires
            old(self).total_facts_processed + stats.total_facts <= u64::MAX,
            old(self).facts_removed + stats.duplicates_removed + stats.conflicts_resolved + stats.facts_evicted <= u64::MAX,
        ensures
            final(self).total_facts_processed == old(self).total_facts_processed + stats.total_facts,
            final(self).facts_removed == old(self).facts_removed + stats.duplicates_removed
                + stats.conflicts_resolved + stats.facts_evicted,
            final(self).merge_count == old(self).merge_count,
            final(self).last_updated == Some(now),
    {
        self.total_facts_processed = self.total_facts_processed + stats.total_facts as u64;
        let removed = stats.duplicates_removed as u64 + stats.conflicts_resolved as u64 + stats.facts_evicted as u64;
        self.facts_removed = self.facts_removed + removed;
        self.last_updated = Some(now);
    }
}

/// The key under which facts count as duplicates: the content without surrounding white
/// space, in lower case.
pub fn fact_dedup_key(content: &str) -> (r: String)
    ensures
        r@ == lowercase(trim_whitespace(content@)),
{
    let t = trim(content);
    to_lowercase(t.as_str())
}

/// The dedup keys of the facts' contents.
pub open spec fn dedup_keys(contents: Seq<String>) -> Seq<Seq<char>> {
    contents.map_values(|c: String| lowercase(trim_whitespace(c@)))
}

/// The first place at or after `j` in `kept` whose fact has the key `key`.
pub open spec fn slot_of(kept: Seq<int>, keys: Seq<Seq<char>>, key: Seq<char>, j: int) -> Option<int>
    decreases kept.len() - j,
{
    if j < 0 || j >= kept.len() {
        None
    } else if keys[kept[j]] == key {
        Some(j)
    } else {
        slot_of(kept, keys, key, j + 1)
    }
}

/// The positions that deduplication keeps of the first `n` facts, by their keys and
/// their confidence ranks: a fact with a new key is kept after the others; a fact whose
/// key is kept already replaces the kept one when its confidence is higher.
pub open spec fn dedup_kept(keys: Seq<Seq<char>>, ranks: Seq<u64>, n: nat) -> Seq<int>
    decreases n,
{
    if n == 0 {
        Seq::empty()
    } else {
        let k = dedup_kept(keys, ranks, (n - 1) as nat);
        let m = n - 1;
        match slot_of(k, keys, keys[m], 0) {
            None => k.push(m),
            Some(j) => if ranks[m] > ranks[k[j]] {
                k.update(j, m)
            } else {
                k
            },
        }
    }
}

proof fn lemma_slot_of(kept: Seq<int>, keys: Seq<Seq<char>>, key: Seq<char>, j: int)
    requires
        0 <= j <= kept.len(),
    ensures
        match slot_of(kept, keys, key, j) {
            Some(s) => j <= s < kept.len() && keys[kept[s]] == key,
            None => forall|t: int| j <= t < kept.len() ==> keys[#[trigger] kept[t]] != key,
        },
    decreases kept.len() - j,
{
    if j < kept.len() && keys[kept[j]] != key {
        lemma_slot_of(kept, keys, key, j + 1);
    }
}

/// The positions `kept` keep one of the first `n` facts per key: each is one of those
/// facts, their keys are distinct, every key of those facts is kept, and the fact kept
/// for a key has the highest confidence rank among the facts with that key, the first
/// of them when several share it.
pub open spec fn keeps_best_per_key(keys: Seq<Seq<char>>, ranks: Seq<u64>, kept: Seq<int>, n: int) -> bool {
    &&& forall|j: int| 0 <= j < kept.len() ==> 0 <= #[trigger] kept[j] < n
    &&& forall|a: int, b: int| 0 <= a < b < kept.len() ==> keys[#[trigger] kept[a]] != keys[#[trigger] kept[b]]
    &&& forall|q: int| 0 <= q < n ==> #[trigger] key_is_kept(keys, kept, keys[q])
    &&& forall|j: int, q: int|
        #![trigger kept[j], ranks[q]]
        0 <= j < kept.len() && 0 <= q < n && keys[q] == keys[kept[j]] ==> ranks[q] <= ranks[kept[j]] && (q
            < kept[j] ==> ranks[q] < ranks[kept[j]])
}

/// Some kept fact has the key `key`.
pub open spec fn key_is_kept(keys: Seq<Seq<char>>, kept: Seq<int>, key: Seq<char>) -> bool {
    exists|j: int| 0 <= j < kept.len() && keys[#[trigger] kept[j]] == key
}

proof fn lemma_dedup_new_key(keys: Seq<Seq<char>>, ranks: Seq<u64>, k: Seq<int>, m: int)
    requires
        0 <= m < keys.len(),
        m < ranks.len(),
        keeps_best_per_key(keys, ranks, k, m),
        forall|t: int| 0 <= t < k.len() ==> keys[#[trigger] k[t]] != keys[m],
    ensures
        keeps_best_per_key(keys, ranks, k.push(m), m + 1),
{
    let out = k.push(m);
    assert forall|q: int| 0 <= q < m + 1 implies #[trigger] key_is_kept(keys, out, keys[q]) by {
        if q == m {
            assert(keys[out[k.len() as int]] == keys[q]);
        } else {
            assert(key_is_kept(keys, k, keys[q]));
            let j = choose|j: int| 0 <= j < k.len() && keys[#[trigger] k[j]] == keys[q];
            assert(out[j] == k[j]);
        }
    }
    assert forall|j: int, q: int|
        #![trigger out[j], ranks[q]]
        0 <= j < out.len() && 0 <= q < m + 1 && keys[q] == keys[out[j]] implies ranks[q] <= ranks[out[j]] && (q
            < out[j] ==> ranks[q] < ranks[out[j]]) by {
        if j == k.len() {
            if q < m {
                assert(key_is_kept(keys, k, keys[q]));
                let t = choose|t: int| 0 <= t < k.len() && keys[#[trigger] k[t]] == keys[q];
                assert(keys[k[t]] != keys[m]);
            }
        } else {
            assert(out[j] == k[j]);
            if q == m {
                assert(keys[k[j]] != keys[m]);
            } else {
                assert(ranks[q] <= ranks[k[j]]);
            }
        }
    }
    assert forall|a: int, b: int| 0 <= a < b < out.len() implies keys[#[trigger] out[a]] != keys[#[trigger] out[b]] by {
        assert(out[a] == k[a]);
        if b < k.len() {
            assert(out[b] == k[b]);
        } else {
            assert(keys[k[a]] != keys[m]);
        }
    }
    assert forall|j: int| 0 <= j < out.len() implies 0 <= #[trigger] out[j] < m + 1 by {
        if j < k.len() {
            assert(out[j] == k[j]);
        }
    }
}

proof fn lemma_dedup_replace(keys: Seq<Seq<char>>, ranks: Seq<u64>, k: Seq<int>, m: int, s: int)
    requires
        0 <= m < keys.len(),
        m < ranks.len(),
        keeps_best_per_key(keys, ranks, k, m),
        0 <= s < k.len(),
        keys[k[s]] == keys[m],
        ranks[m] > ranks[k[s]],
    ensures
        keeps_best_per_key(keys, ranks, k.update(s, m), m + 1),
{
    let out = k.update(s, m);
    assert forall|q: int| 0 <= q < m + 1 implies #[trigger] key_is_kept(keys, out, keys[q]) by {
        if q == m {
            assert(keys[out[s]] == keys[q]);
        } else {
            assert(key_is_kept(keys, k, keys[q]));
            let j = choose|j: int| 0 <= j < k.len() && keys[#[trigger] k[j]] == keys[q];
            if j == s {
                assert(keys[out[s]] == keys[q]);
            } else {
                assert(out[j] == k[j]);
            }
        }
    }
    assert forall|j: int, q: int|
        #![trigger out[j], ranks[q]]
        0 <= j < out.len() && 0 <= q < m + 1 && keys[q] == keys[out[j]] implies ranks[q] <= ranks[out[j]] && (q
            < out[j] ==> ranks[q] < ranks[out[j]]) by {
        if j == s {
            if q < m {
                assert(keys[q] == keys[k[s]]);
                assert(ranks[q] <= ranks[k[s]]);
            }
        } else {
            assert(out[j] == k[j]);
            if q == m {
                if j < s {
                    assert(keys[k[j]] != keys[k[s]]);
                } else {
                    assert(keys[k[s]] != keys[k[j]]);
                }
            } else {
                assert(ranks[q] <= ranks[k[j]]);
            }
        }
    }
    assert forall|a: int, b: int| 0 <= a < b < out.len() implies keys[#[trigger] out[a]] != keys[#[trigger] out[b]] by {
        assert(keys[out[a]] == keys[k[a]]);
        assert(keys[out[b]] == keys[k[b]]);
        assert(keys[k[a]] != keys[k[b]]);
    }
    assert forall|j: int| 0 <= j < out.len() implies 0 <= #[trigger] out[j] < m + 1 by {
        if j != s {
            assert(out[j] == k[j]);
        }
    }
}

proof fn lemma_dedup_keep(keys: Seq<Seq<char>>, ranks: Seq<u64>, k: Seq<int>, m: int, s: int)
    requires
        0 <= m < keys.len(),
        m < ranks.len(),
        keeps_best_per_key(keys, ranks, k, m),
        0 <= s < k.len(),
        keys[k[s]] == keys[m],
        ranks[m] <= ranks[k[s]],
    ensures
        keeps_best_per_key(keys, ranks, k, m + 1),
{
    assert forall|j: int, q: int|
        #![trigger k[j], ranks[q]]
        0 <= j < k.len() && 0 <= q < m + 1 && keys[q] == keys[k[j]] implies ranks[q] <= ranks[k[j]] && (q
            < k[j] ==> ranks[q] < ranks[k[j]]) by {
        if q == m {
            if j != s {
                if j < s {
                    assert(keys[k[j]] != keys[k[s]]);
                } else {
                    assert(keys[k[s]] != keys[k[j]]);
                }
            }
        } else {
            assert(ranks[q] <= ranks[k[j]]);
        }
    }
    assert forall|q: int| 0 <= q < m + 1 implies #[trigger] key_is_kept(keys, k, keys[q]) by {
        if q == m {
            assert(keys[k[s]] == keys[q]);
        }
    }
}

/// Deduplication keeps one fact per key: the kept facts have distinct keys, every key of
/// the facts is kept, and the fact kept for a key has the highest confidence among the
/// facts with that key, the first of them when several share it.
pub proof fn law_dedup_keeps_best_per_key(keys: Seq<Seq<char>>, ranks: Seq<u64>, n: nat)
    requires
        n <= keys.len(),
        n <= ranks.len(),
    ensures
        keeps_best_per_key(keys, ranks, dedup_kept(keys, ranks, n), n as int),
    decreases n,
{
    if n > 0 {
        let m = (n - 1) as int;
        law_dedup_keeps_best_per_key(keys, ranks, (n - 1) as nat);
        let k = dedup_kept(keys, ranks, (n - 1) as nat);
        lemma_slot_of(k, keys, keys[m], 0);
        match slot_of(k, keys, keys[m], 0) {
            None => lemma_dedup_new_key(keys, ranks, k, m),
            Some(s) => {
                if ranks[m] > ranks[k[s]] {
                    lemma_dedup_replace(keys, ranks, k, m, s);
                } else {
                    lemma_dedup_keep(keys, ranks, k, m, s);
                }
            },
        }
    }
}

fn dedup_key_texts(contents: &Vec<String>) -> (r: Vec<String>)
    ensures
        r@.map_values(|k: String| k@) == dedup_keys(contents@),
{
    let mut out: Vec<String> = Vec::new();
    let mut i: usize = 0;
    while i < contents.len()
        invariant
            i <= contents@.len(),
            out@.map_values(|k: String| k@) == dedup_keys(contents@.take(i as int)),
        decreases contents@.len() - i,
    {
        let key = fact_dedup_key(contents[i].as_str());
        let ghost before = out@.map_values(|k: String| k@);
        out.push(key);
        assert(out@.map_values(|k: String| k@) =~= before.push(lowercase(trim_whitespace(contents@[i as int]@))));
        assert(dedup_keys(contents@.take(i + 1)) =~= dedup_keys(contents@.take(i as int)).push(lowercase(trim_whitespace(contents@[i as int]@))));
        i = i + 1;
    }
    assert(contents@.take(contents@.len() as int) =~= contents@);
    out
}

/// Deduplicates facts, given by their contents and their confidence ranks (integers that
/// order as the confidences do): one fact per dedup key, the one with the highest
/// confidence, the first of them on a tie. Gives the positions kept, in the order their
/// keys first appear.
pub fn deduplicate_facts(contents: &Vec<String>, confidence_ranks: &Vec<u64>) -> (r: Vec<usize>)
    requires
        contents@.len() == confidence_ranks@.len(),
    ensures
        r@.map_values(|p: usize| p as int) == dedup_kept(dedup_keys(contents@), confidence_ranks@, contents@.len()),
{
    let keys = dedup_key_texts(contents);
    let ghost kv = keys@.map_values(|k: String| k@);
    assert(keys@.len() == kv.len() && kv.len() == dedup_keys(contents@).len());
    let mut kept: Vec<usize> = Vec::new();
    let mut i: usize = 0;
    while i < contents.len()
        invariant
            i <= contents@.len(),
            contents@.len() == confidence_ranks@.len(),
            keys@.len() == contents@.len(),
            kv == keys@.map_values(|k: String| k@),
            kv == dedup_keys(contents@),
            kept@.map_values(|p: usize| p as int) == dedup_kept(kv, confidence_ranks@, i as nat),
        decreases contents@.len() - i,
    {
        let ghost kk = kept@.map_values(|p: usize| p as int);
        proof {
            law_dedup_keeps_best_per_key(kv, confidence_ranks@, i as nat);
            assert forall|j: int| 0 <= j < kept@.len() implies #[trigger] kept@[j] < i by {
                assert(kk[j] == kept@[j] as int);
                assert(0 <= kk[j] < i);
            }
            lemma_slot_of(kk, kv, kv[i as int], 0);
        }
        let mut j: usize = 0;
        while j < kept.len() && !str_eq(keys[kept[j]].as_str(), keys[i].as_str())
            invariant
                j <= kept@.len(),
                i < keys@.len(),
                kv == keys@.map_values(|k: String| k@),
                kk == kept@.map_values(|p: usize| p as int),
                forall|t: int| 0 <= t < kept@.len() ==> #[trigger] kept@[t] < i,
                slot_of(kk, kv, kv[i as int], 0) == slot_of(kk, kv, kv[i as int], j as int),
            decreases kept@.len() - j,
        {
            assert(kv[kk[j as int]] == keys@[kept@[j as int] as int]@);
            j = j + 1;
        }
        if j < kept.len() {
            assert(kv[kk[j as int]] == keys@[kept@[j as int] as int]@);
            if confidence_ranks[i] > confidence_ranks[kept[j]] {
                kept.set(j, i);
                assert(kept@.map_values(|p: usize| p as int) =~= kk.update(j as int, i as int));
            }
        } else {
            kept.push(i);
            assert(kept@.map_values(|p: usize| p as int) =~= kk.push(i as int));
        }
        i = i + 1;
    }
    kept
}

/// The positions of the facts, given by their ids, that stay when the facts whose ids
/// are in `remove` are taken out, in order.
pub open spec fn kept_after_removal(ids: Seq<Seq<char>>, remove: Seq<Seq<char>>) -> Seq<int> {
    Seq::new(ids.len(), |i: int| i).filter(|i: int| !remove.contains(ids[i]))
}

fn id_listed(remove: &Vec<String>, id: &str) -> (r: bool)
    ensures
        r == remove@.map_values(|t: String| t@).contains(id@),
{
    let ghost rv = remove@.map_values(|t: String| t@);
    let mut j: usize = 0;
    while j < remove.len()
        invariant
            j <= remove@.len(),
            rv == remove@.map_values(|t: String| t@),
            forall|t: int| 0 <= t < j ==> rv[t] != id@,
        decreases remove@.len() - j,
    {
        if str_eq(remove[j].as_str(), id) {
            assert(rv[j as int] == id@);
            return true;
        }
        j = j + 1;
    }
    false
}

/// Removes facts by id: the positions of the facts that stay, in order.
pub fn facts_kept_after_removal(ids: &Vec<String>, remove: &Vec<String>) -> (r: Vec<usize>)
    ensures
        r@.map_values(|p: usize| p as int) == kept_after_removal(
            ids@.map_values(|t: String| t@),
            remove@.map_values(|t: String| t@),
        ),
{
    let ghost iv = ids@.map_values(|t: String| t@);
    let ghost rv = remove@.map_values(|t: String| t@);
    let ghost f = |i: int| !rv.contains(iv[i]);
    let mut out: Vec<usize> = Vec::new();
    let mut i: usize = 0;
    while i < ids.len()
        invariant
            i <= ids@.len(),
            iv == ids@.map_values(|t: String| t@),
            rv == remove@.map_values(|t: String| t@),
            f == (|i: int| !rv.contains(iv[i])),
            out@.map_values(|p: usize| p as int) == Seq::new(i as nat, |k: int| k).filter(f),
        decreases ids@.len() - i,
    {
        let ghost before = out@.map_values(|p: usize| p as int);
        proof {
            Seq::new(i as nat, |k: int| k).lemma_filter_push(i as int, f);
            assert(Seq::new((i + 1) as nat, |k: int| k) =~= Seq::new(i as nat, |k: int| k).push(i as int));
        }
        if !id_listed(remove, ids[i].as_str()) {
            out.push(i);
            assert(out@.map_values(|p: usize| p as int) =~= before.push(i as int));
        } else {
            assert(out@.map_values(|p: usize| p as int) =~= before);
        }
        i = i + 1;
    }
    out
}

/// Removing facts by id keeps exactly the facts whose ids are not listed, in their order.
pub proof fn law_removal_keeps_unlisted_facts(ids: Seq<Seq<char>>, remove: Seq<Seq<char>>)
    ensures
        forall|j: int| 0 <= j < kept_after_removal(ids, remove).len() ==> {
            let p = #[trigger] kept_after_removal(ids, remove)[j];
            0 <= p < ids.len() && !remove.contains(ids[p])
        },
        forall|p: int| 0 <= p < ids.len() && !remove.contains(#[trigger] ids[p]) ==> kept_after_removal(ids, remove).contains(p),
        forall|a: int, b: int| 0 <= a < b < kept_after_removal(ids, remove).len() ==> kept_after_removal(ids, remove)[a]
            < kept_after_removal(ids, remove)[b],
{
    let all = Seq::new(ids.len(), |i: int| i);
    let f = |i: int| !remove.contains(ids[i]);
    let kept = all.filter(f);
    lemma_filter_from(all, f);
    assert forall|j: int| 0 <= j < kept.len() implies {
        let p = #[trigger] kept[j];
        0 <= p < ids.len() && !remove.contains(ids[p])
    } by {
        all.lemma_filter_pred(f, j);
        assert(all.contains(kept[j]));
    }
    assert forall|p: int| 0 <= p < ids.len() && !remove.contains(#[trigger] ids[p]) implies kept.contains(p) by {
        assert(all[p] == p);
        all.lemma_filter_contains(f, p);
    }
    lemma_filter_of_increasing(all, f);
}

proof fn lemma_filter_from(s: Seq<int>, f: spec_fn(int) -> bool)
    ensures
        forall|j: int| 0 <= j < s.filter(f).len() ==> s.contains(#[trigger] s.filter(f)[j]),
    decreases s.len(),
{
    reveal(Seq::filter);
    if s.len() > 0 {
        let d = s.drop_last();
        lemma_filter_from(d, f);
        assert forall|j: int| 0 <= j < s.filter(f).len() implies s.contains(#[trigger] s.filter(f)[j]) by {
            if j < d.filter(f).len() {
                assert(s.filter(f)[j] == d.filter(f)[j]);
                assert(d.contains(d.filter(f)[j]));
                let k = choose|k: int| 0 <= k < d.len() && d[k] == d.filter(f)[j];
                assert(s[k] == d[k]);
            } else {
                assert(s.filter(f)[j] == s.last());
                assert(s[s.len() - 1] == s.last());
            }
        }
    }
}

proof fn lemma_filter_of_increasing(s: Seq<int>, f: spec_fn(int) -> bool)
    requires
        forall|a: int, b: int| 0 <= a < b < s.len() ==> s[a] < s[b],
    ensures
        forall|a: int, b: int| 0 <= a < b < s.filter(f).len() ==> s.filter(f)[a] < s.filter(f)[b],
    decreases s.len(),
{
    reveal(Seq::filter);
    if s.len() > 0 {
        let d = s.drop_last();
        lemma_filter_of_increasing(d, f);
        lemma_filter_from(d, f);
        if f(s.last()) {
            let df = d.filter(f);
            assert(s.filter(f) == df.push(s.last()));
            assert forall|a: int| 0 <= a < df.len() implies df[a] < s.last() by {
                assert(d.contains(df[a]));
                let k = choose|k: int| 0 <= k < d.len() && d[k] == df[a];
                assert(d[k] == s[k]);
            }
        } else {
            assert(s.filter(f) == d.filter(f));
        }
    }
}

/// Whether a document with `fact_count` facts and these sections has any memory to show.
pub fn has_any_content(fact_count: usize, user: &MemoryUserProfile, history: &MemoryHistory) -> (r: bool)
    ensures
        r == (fact_count > 0 || user.work_context is Some || user.personal_context is Some
            || user.top_of_mind is Some || history.recent_months is Some || history.earlier_context is Some
            || history.long_term_background is Some),
{
    fact_count > 0 || user.work_context.is_some() || user.personal_context.is_some()
        || user.top_of_mind.is_some() || history.recent_months.is_some()
        || history.earlier_context.is_some() || history.long_term_background.is_some()
}

/// A labelled line for a section that is set.
pub open spec fn labelled(label: Seq<char>, s: Option<String>) -> Seq<Seq<char>> {
    match s {
        Some(t) => seq![label + ": "@ + t@],
        None => Seq::empty(),
    }
}

/// The lines describing a memory document to the model: the set sections, labelled,
/// then `Facts:` and the formatted facts, one per line, if there are any.
pub open spec fn memory_prompt_lines(
    user: MemoryUserProfile,
    history: MemoryHistory,
    fact_lines: Seq<Seq<char>>,
) -> Seq<Seq<char>> {
    labelled("Work Context"@, user.work_context) + labelled("Personal Context"@, user.personal_context)
        + labelled("Top of Mind"@, user.top_of_mind) + labelled("Recent Months"@, history.recent_months)
        + labelled("Earlier Context"@, history.earlier_context) + labelled(
        "Long-term Background"@,
        history.long_term_background,
    ) + if fact_lines.len() > 0 {
        seq!["Facts:"@] + fact_lines
    } else {
        Seq::empty()
    }
}

/// Lines joined by `\n`.
pub open spec fn joined_lines(lines: Seq<Seq<char>>) -> Seq<char>
    decreases lines.len(),
{
    if lines.len() == 0 {
        Seq::empty()
    } else if lines.len() == 1 {
        lines[0]
    } else {
        joined_lines(lines.drop_last()) + "\n"@ + lines.last()
    }
}

fn push_labelled(lines: &mut Vec<String>, label: &str, s: &Option<String>)
    ensures
        final(lines)@.map_values(|l: String| l@) == old(lines)@.map_values(|l: String| l@) + labelled(label@, *s),
{
    match s {
        Some(t) => {
            let mut line = label.to_string();
            line.append(": ");
            line.append(t.as_str());
            let ghost before = lines@.map_values(|l: String| l@);
            lines.push(line);
            assert(lines@.map_values(|l: String| l@) =~= before + labelled(label@, *s));
        },
        None => {
            assert(lines@.map_values(|l: String| l@) =~= lines@.map_values(|l: String| l@) + labelled(label@, *s));
        },
    }
}

/// Joins lines with `\n` (as `[String]::join("\n")` does).
pub fn join_lines(lines: &Vec<String>) -> (r: String)
    ensures
        r@ == joined_lines(lines@.map_values(|l: String| l@)),
{
    let ghost views = lines@.map_values(|l: String| l@);
    let mut out = String::new();
    let mut i: usize = 0;
    while i < lines.len()
        invariant
            i <= lines@.len(),
            views == lines@.map_values(|l: String| l@),
            out@ == joined_lines(views.take(i as int)),
        decreases lines@.len() - i,
    {
        if i > 0 {
            out.append("\n");
        }
        out.append(lines[i].as_str());
        assert(views.take(i + 1).drop_last() =~= views.take(i as int));
        proof {
            if i == 0 {
                assert(views.take(1) =~= seq![views[0]]);
                assert(Seq::<char>::empty() + views[0] =~= views[0]);
            }
        }
        i = i + 1;
    }
    assert(views.take(lines@.len() as int) =~= views);
    out
}

/// The memory of a document as the extraction prompt shows it: the set sections,
/// labelled, then `Facts:` and the given fact lines, all joined by `\n`.
pub fn format_memory_for_prompt(user: &MemoryUserProfile, history: &MemoryHistory, fact_lines: &Vec<String>) -> (r: String)
    ensures
        r@ == joined_lines(memory_prompt_lines(*user, *history, fact_lines@.map_values(|l: String| l@))),
{
    let mut lines: Vec<String> = Vec::new();
    assert(lines@.map_values(|l: String| l@) =~= Seq::<Seq<char>>::empty());
    push_labelled(&mut lines, "Work Context", &user.work_context);
    push_labelled(&mut lines, "Personal Context", &user.personal_context);
    push_labelled(&mut lines, "Top of Mind", &user.top_of_mind);
    push_labelled(&mut lines, "Recent Months", &history.recent_months);
    push_labelled(&mut lines, "Earlier Context", &history.earlier_context);
    push_labelled(&mut lines, "Long-term Background", &history.long_term_background);
    let ghost sections = lines@.map_values(|l: String| l@);
    let ghost facts = fact_lines@.map_values(|l: String| l@);
    if fact_lines.len() > 0 {
        lines.push("Facts:".to_string());
        let mut i: usize = 0;
        while i < fact_lines.len()
            invariant
                i <= fact_lines@.len(),
                facts == fact_lines@.map_values(|l: String| l@),
                lines@.map_values(|l: String| l@) == sections + seq!["Facts:"@] + facts.take(i as int),
            decreases fact_lines@.len() - i,
        {
            let ghost before = lines@.map_values(|l: String| l@);
            lines.push(fact_lines[i].clone());
            assert(lines@.map_values(|l: String| l@) =~= before.push(facts[i as int]));
            assert(facts.take(i + 1) =~= facts.take(i as int).push(facts[i as int]));
            i = i + 1;
        }
        assert(facts.take(fact_lines@.len() as int) =~= facts);
    }
    assert(lines@.map_values(|l: String| l@) =~= memory_prompt_lines(*user, *history, facts));
    join_lines(&lines)
}

/// An update that replaces no section leaves the profile as it was.
pub proof fn law_update_without_changes_keeps_profile(
    before: MemoryUserProfile,
    after: MemoryUserProfile,
    update: UserUpdate,
    now: UtcTimestamp,
)
    requires
        !applies(update.work_context),
        !applies(update.personal_context),
        !applies(update.top_of_mind),
        section_text(after.work_context) == updated_section(section_text(before.work_context), update.work_context),
        section_text(after.personal_context) == updated_section(
            section_text(before.personal_context),
            update.personal_context,
        ),
        section_text(after.top_of_mind) == updated_section(section_text(before.top_of_mind), update.top_of_mind),
    ensures
        section_text(after.work_context) == section_text(before.work_context),
        section_text(after.personal_context) == section_text(before.personal_context),
        section_text(after.top_of_mind) == section_text(before.top_of_mind),
{
}

/// Applying the same section update twice is applying it once.
pub proof fn law_section_update_is_idempotent(section: Option<Seq<char>>, update: Option<ContextUpdate>)
    ensures
        updated_section(updated_section(section, update), update) == updated_section(section, update),
{
}

} // verus!
