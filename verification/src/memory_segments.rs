//! Segmented memory retrieval: what of the recent facts, the working summaries and the
//! ranked archived entries fits a token budget, and how the kept parts are written into a
//! prompt.

use vstd::prelude::*;
use crate::memory::{category_name, utf8_len, SimpleTokenCounter};
use crate::memory_injection::{
    counts_as_ints, fact_tokens, fill_by_counts, greedy_fill, lemma_greedy_fill_bound, line_token_counts, tokens_sum,
    InjectedFact,
};
use crate::memory_profile::joined_lines;
use crate::manage_tasks::{instant_before, timestamp_before};
use crate::session::UtcTimestamp;

verus! {

/// An archived entry as retrieval reads it: its summary and the contents of its key facts.
#[derive(Debug, Clone, PartialEq, Eq)]
pub struct ArchivedEntryText {
    pub summary: String,
    pub key_facts: Vec<String>,
}

/// Texts joined by single spaces.
pub open spec fn joined_with_spaces(parts: Seq<Seq<char>>) -> Seq<char>
    decreases parts.len(),
{
    if parts.len() == 0 {
        Seq::empty()
    } else if parts.len() == 1 {
        parts[0]
    } else {
        joined_with_spaces(parts.drop_last()) + " "@ + parts.last()
    }
}

/// The text an archived entry is budgeted by: its summary and its key facts, joined by
/// spaces.
pub open spec fn archived_entry_text(summary: Seq<char>, key_facts: Seq<String>) -> Seq<char> {
    joined_with_spaces(seq![summary] + key_facts.map_values(|f: String| f@))
}

/// The tokens of each archived entry's text.
pub open spec fn archived_tokens(entries: Seq<ArchivedEntryText>, chars_per_token: nat) -> Seq<int> {
    entries.map_values(|e: ArchivedEntryText| (utf8_len(archived_entry_text(e.summary@, e.key_facts@)) / chars_per_token) as int)
}

/// The positions from `k` on of the counts that are kept when each is taken if it still
/// fits `budget`, and skipped otherwise.
pub open spec fn fitting_positions(tokens: Seq<int>, budget: int, k: int) -> Seq<int>
    decreases tokens.len() - k,
{
    if k >= tokens.len() || k < 0 {
        Seq::empty()
    } else if tokens[k] <= budget {
        seq![k] + fitting_positions(tokens, budget - tokens[k], k + 1)
    } else {
        fitting_positions(tokens, budget, k + 1)
    }
}

/// The tokens taken by the counts at these positions.
pub open spec fn tokens_at(tokens: Seq<int>, positions: Seq<int>) -> int
    decreases positions.len(),
{
    if positions.len() == 0 {
        0
    } else {
        tokens[positions[0]] + tokens_at(tokens, positions.drop_first())
    }
}

/// What segmented retrieval keeps: how many of the recent facts and of the working
/// summaries (each a leading run), which archived entries, and the tokens they take.
#[derive(Debug, Clone, PartialEq, Eq)]
pub struct SegmentedSelection {
    pub recent_kept: usize,
    pub working_kept: usize,
    pub archived_kept: Vec<usize>,
    pub total_tokens: usize,
}

pub(crate) fn join_with_spaces(parts: &Vec<String>) -> (r: String)
    ensures
        r@ == joined_with_spaces(parts@.map_values(|p: String| p@)),
{
    let ghost views = parts@.map_values(|p: String| p@);
    let mut out = String::new();
    let mut i: usize = 0;
    while i < parts.len()
        invariant
            i <= parts@.len(),
            views == parts@.map_values(|p: String| p@),
            out@ == joined_with_spaces(views.take(i as int)),
        decreases parts@.len() - i,
    {
        if i > 0 {
            out.append(" ");
        }
        out.append(parts[i].as_str());
        assert(views.take(i + 1).drop_last() =~= views.take(i as int));
        proof {
            if i == 0 {
                assert(views.take(1) =~= seq![views[0]]);
                assert(Seq::<char>::empty() + views[0] =~= views[0]);
            }
        }
        i = i + 1;
    }
    assert(views.take(parts@.len() as int) =~= views);
    out
}

impl ArchivedEntryText {
    /// The text the entry is budgeted by: its summary and its key facts, joined by spaces.
    pub fn budget_text(&self) -> (r: String)
        ensures
            r@ == archived_entry_text(self.summary@, self.key_facts@),
    {
        entry_text(self)
    }
}

fn entry_text(e: &ArchivedEntryText) -> (r: String)
    ensures
        r@ == archived_entry_text(e.summary@, e.key_facts@),
{
    let mut parts: Vec<String> = Vec::new();
    parts.push(e.summary.clone());
    let mut i: usize = 0;
    while i < e.key_facts.len()
        invariant
            i <= e.key_facts@.len(),
            parts@.map_values(|p: String| p@) == seq![e.summary@] + e.key_facts@.take(i as int).map_values(|f: String| f@),
        decreases e.key_facts@.len() - i,
    {
        let ghost before = parts@.map_values(|p: String| p@);
        parts.push(e.key_facts[i].clone());
        assert(parts@.map_values(|p: String| p@) =~= before.push(e.key_facts@[i as int]@));
        assert(e.key_facts@.take(i + 1).map_values(|f: String| f@) =~= e.key_facts@.take(i as int).map_values(|f: String| f@).push(e.key_facts@[i as int]@));
        i = i + 1;
    }
    assert(e.key_facts@.take(e.key_facts@.len() as int) =~= e.key_facts@);
    join_with_spaces(&parts)
}

/// Takes a leading run of the counts while they fit the budget left, stopping at the
/// first that does not.
fn take_while_fits(tokens: &Vec<usize>, budget: usize) -> (r: (usize, usize))
    ensures
        r.0 == greedy_fill(tokens@.map_values(|t: usize| t as int), budget as int),
        r.1 == tokens_sum(tokens@.map_values(|t: usize| t as int), r.0 as int),
        r.1 <= budget,
{
    let ghost t = tokens@.map_values(|t: usize| t as int);
    let mut used: usize = 0;
    let mut i: usize = 0;
    assert(t.subrange(0, t.len() as int) =~= t);
    while i < tokens.len()
        invariant_except_break
            i <= tokens@.len(),
            t == tokens@.map_values(|t: usize| t as int),
            used <= budget,
            used == tokens_sum(t, i as int),
            greedy_fill(t, budget as int) == i + greedy_fill(t.subrange(i as int, t.len() as int), budget - used),
        ensures
            used <= budget,
            used == tokens_sum(t, i as int),
            greedy_fill(t, budget as int) == i,
        decreases tokens@.len() - i,
    {
        let ghost rest = t.subrange(i as int, t.len() as int);
        assert(rest[0] == tokens@[i as int]);
        if tokens[i] <= budget - used {
            assert(rest.drop_first() =~= t.subrange(i + 1, t.len() as int));
            used = used + tokens[i];
            i = i + 1;
        } else {
            break;
        }
    }
    proof {
        if i == tokens@.len() {
            assert(t.subrange(i as int, t.len() as int) =~= Seq::<int>::empty());
        }
    }
    (i, used)
}

/// Keeps each count that still fits the budget left and skips the others.
fn keep_each_that_fits(tokens: &Vec<usize>, budget: usize) -> (r: (Vec<usize>, usize))
    ensures
        r.0@.map_values(|p: usize| p as int) == fitting_positions(tokens@.map_values(|t: usize| t as int), budget as int, 0),
        r.1 == tokens_at(tokens@.map_values(|t: usize| t as int), fitting_positions(tokens@.map_values(|t: usize| t as int), budget as int, 0)),
        r.1 <= budget,
{
    let ghost t = tokens@.map_values(|t: usize| t as int);
    let mut kept: Vec<usize> = Vec::new();
    let mut used: usize = 0;
    let mut i: usize = 0;
    while i < tokens.len()
        invariant
            i <= tokens@.len(),
            t == tokens@.map_values(|t: usize| t as int),
            used <= budget,
            kept@.map_values(|p: usize| p as int) + fitting_positions(t, budget - used, i as int) == fitting_positions(t, budget as int, 0),
            used + tokens_at(t, fitting_positions(t, budget - used, i as int)) == tokens_at(t, fitting_positions(t, budget as int, 0)),
        decreases tokens@.len() - i,
    {
        let ghost before = kept@.map_values(|p: usize| p as int);
        let ghost rest = fitting_positions(t, budget - used, i as int);
        if tokens[i] <= budget - used {
            kept.push(i);
            assert(rest == seq![i as int] + fitting_positions(t, budget - used - t[i as int], i + 1));
            assert(kept@.map_values(|p: usize| p as int) =~= before.push(i as int));
            assert(before.push(i as int) + fitting_positions(t, budget - used - t[i as int], i + 1) =~= before + rest);
            assert(rest.drop_first() =~= fitting_positions(t, budget - used - t[i as int], i + 1));
            used = used + tokens[i];
        }
        i = i + 1;
    }
    assert(kept@.map_values(|p: usize| p as int) =~= fitting_positions(t, budget as int, 0));
    (kept, used)
}

fn entry_tokens(entries: &Vec<ArchivedEntryText>, counter: &SimpleTokenCounter) -> (r: Vec<usize>)
    requires
        counter.chars_per_token > 0,
        forall|i: int| 0 <= i < entries@.len() ==> utf8_len(archived_entry_text(#[trigger] entries@[i].summary@, entries@[i].key_facts@)) <= usize::MAX,
    ensures
        r@.map_values(|t: usize| t as int) == archived_tokens(entries@, counter.chars_per_token as nat),
{
    let mut out: Vec<usize> = Vec::new();
    let mut i: usize = 0;
    while i < entries.len()
        invariant
            i <= entries@.len(),
            counter.chars_per_token > 0,
            forall|j: int| 0 <= j < entries@.len() ==> utf8_len(archived_entry_text(#[trigger] entries@[j].summary@, entries@[j].key_facts@)) <= usize::MAX,
            out@.map_values(|t: usize| t as int) == archived_tokens(entries@.take(i as int), counter.chars_per_token as nat),
        decreases entries@.len() - i,
    {
        let text = entry_text(&entries[i]);
        let n = crate::memory::byte_len(text.as_str());
        let ghost before = out@.map_values(|t: usize| t as int);
        let t = n / counter.chars_per_token;
        out.push(t);
        assert(out@.map_values(|t: usize| t as int) =~= before.push(t as int));
        assert(archived_tokens(entries@.take(i + 1), counter.chars_per_token as nat) =~= archived_tokens(entries@.take(i as int), counter.chars_per_token as nat).push(t as int));
        i = i + 1;
    }
    assert(entries@.take(entries@.len() as int) =~= entries@);
    out
}

/// What segmented retrieval keeps within `max_tokens`, from the tokens each item takes:
/// a leading run of the recent items while they fit, stopping at the first that does not;
/// then a leading run of the working items likewise in what is left; then each archived
/// entry that still fits, skipping those that do not. Gives the two run lengths and the
/// positions of the archived entries kept.
pub open spec fn selection_by_counts(rt: Seq<int>, wt: Seq<int>, at: Seq<int>, max_tokens: int) -> (int, int, Seq<int>) {
    let r = greedy_fill(rt, max_tokens) as int;
    let left = max_tokens - tokens_sum(rt, r);
    let w = greedy_fill(wt, left) as int;
    (r, w, fitting_positions(at, left - tokens_sum(wt, w), 0))
}

/// The selection segmented retrieval makes within `max_tokens` over the recent facts'
/// contents and the working summaries (each newest first) and the ranked archived
/// entries, each budgeted by the simple token counter.
pub open spec fn segmented_selection(
    recent: Seq<String>,
    working: Seq<String>,
    archived: Seq<ArchivedEntryText>,
    max_tokens: int,
    chars_per_token: nat,
) -> (int, int, Seq<int>) {
    selection_by_counts(
        fact_tokens(recent, chars_per_token),
        fact_tokens(working, chars_per_token),
        archived_tokens(archived, chars_per_token),
        max_tokens,
    )
}

/// Selects what fits `max_tokens` from the tokens each item takes, as
/// [`selection_by_counts`] says; the counts may come from any token counter.
pub fn select_by_counts(recent: &Vec<usize>, working: &Vec<usize>, archived: &Vec<usize>, max_tokens: usize) -> (r: SegmentedSelection)
    ensures
        ({
            let (rk, wk, ak) = selection_by_counts(counts_as_ints(recent@), counts_as_ints(working@), counts_as_ints(archived@), max_tokens as int);
            r.recent_kept == rk && r.working_kept == wk && r.archived_kept@.map_values(|p: usize| p as int) == ak
        }),
        r.total_tokens <= max_tokens,
        r.total_tokens == tokens_sum(counts_as_ints(recent@), r.recent_kept as int)
            + tokens_sum(counts_as_ints(working@), r.working_kept as int)
            + tokens_at(counts_as_ints(archived@), r.archived_kept@.map_values(|p: usize| p as int)),
{
    let (rk, ru) = take_while_fits(recent, max_tokens);
    let (wk, wu) = take_while_fits(working, max_tokens - ru);
    let (ak, au) = keep_each_that_fits(archived, max_tokens - ru - wu);
    SegmentedSelection { recent_kept: rk, working_kept: wk, archived_kept: ak, total_tokens: ru + wu + au }
}

/// Selects what of the segments fits `max_tokens`.
pub fn select_segmented_context(
    recent: &Vec<String>,
    working: &Vec<String>,
    archived: &Vec<ArchivedEntryText>,
    max_tokens: usize,
    counter: &SimpleTokenCounter,
) -> (r: SegmentedSelection)
    requires
        counter.chars_per_token > 0,
        forall|i: int| 0 <= i < recent@.len() ==> utf8_len(#[trigger] recent@[i]@) < usize::MAX,
        forall|i: int| 0 <= i < working@.len() ==> utf8_len(#[trigger] working@[i]@) < usize::MAX,
        forall|i: int| 0 <= i < archived@.len() ==> utf8_len(archived_entry_text(#[trigger] archived@[i].summary@, archived@[i].key_facts@)) <= usize::MAX,
    ensures
        ({
            let (rk, wk, ak) = segmented_selection(recent@, working@, archived@, max_tokens as int, counter.chars_per_token as nat);
            r.recent_kept == rk && r.working_kept == wk && r.archived_kept@.map_values(|p: usize| p as int) == ak
        }),
        r.total_tokens <= max_tokens,
        r.total_tokens == tokens_sum(fact_tokens(recent@, counter.chars_per_token as nat), r.recent_kept as int)
            + tokens_sum(fact_tokens(working@, counter.chars_per_token as nat), r.working_kept as int)
            + tokens_at(archived_tokens(archived@, counter.chars_per_token as nat), r.archived_kept@.map_values(|p: usize| p as int)),
{
    let rt = line_token_counts(recent, counter);
    let wt = line_token_counts(working, counter);
    let at = entry_tokens(archived, counter);
    select_by_counts(&rt, &wt, &at, max_tokens)
}

/// The first place at or after `k` in `order` whose item was made before `t`, or the
/// length when there is none.
pub open spec fn first_older_at(times: Seq<UtcTimestamp>, order: Seq<int>, t: UtcTimestamp, k: int) -> int
    decreases order.len() - k,
{
    if k >= order.len() {
        order.len() as int
    } else if instant_before(times[order[k]], t) {
        k
    } else {
        first_older_at(times, order, t, k + 1)
    }
}

/// The positions of the first `n` items ordered newest first by the instants `times`;
/// items made at the same instant keep their order.
pub open spec fn newest_first_order(times: Seq<UtcTimestamp>, n: nat) -> Seq<int>
    decreases n,
{
    if n == 0 {
        Seq::empty()
    } else {
        let o = newest_first_order(times, (n - 1) as nat);
        o.insert(first_older_at(times, o, times[n - 1], 0), n - 1)
    }
}

proof fn lemma_first_older_at(times: Seq<UtcTimestamp>, order: Seq<int>, t: UtcTimestamp, k: int)
    requires
        0 <= k <= order.len(),
    ensures
        k <= first_older_at(times, order, t, k) <= order.len(),
        forall|j: int| k <= j < first_older_at(times, order, t, k) ==> !instant_before(#[trigger] times[order[j]], t),
        first_older_at(times, order, t, k) < order.len() ==> instant_before(times[order[first_older_at(times, order, t, k)]], t),
    decreases order.len() - k,
{
    if k < order.len() && !instant_before(times[order[k]], t) {
        lemma_first_older_at(times, order, t, k + 1);
    }
}

/// Ordering items newest first gives each of the first `n` positions exactly once, no item
/// after one made earlier, and items made at the same instant in their given order.
pub proof fn law_newest_first_order(times: Seq<UtcTimestamp>, n: nat)
    requires
        n <= times.len(),
    ensures
        newest_first_order(times, n).len() == n,
        forall|j: int| 0 <= j < n ==> 0 <= #[trigger] newest_first_order(times, n)[j] < n,
        newest_first_order(times, n).no_duplicates(),
        forall|i: int, j: int| 0 <= i < j < n ==> !instant_before(
            times[#[trigger] newest_first_order(times, n)[i]],
            times[#[trigger] newest_first_order(times, n)[j]],
        ),
        forall|i: int, j: int| 0 <= i < j < n && times[#[trigger] newest_first_order(times, n)[i]]
            == times[#[trigger] newest_first_order(times, n)[j]] ==> newest_first_order(times, n)[i]
            < newest_first_order(times, n)[j],
    decreases n,
{
    if n > 0 {
        let m = (n - 1) as nat;
        law_newest_first_order(times, m);
        let o = newest_first_order(times, m);
        let t = times[m as int];
        let p = first_older_at(times, o, t, 0);
        lemma_first_older_at(times, o, t, 0);
        let out = o.insert(p, m as int);
        assert(out == newest_first_order(times, n));
        assert forall|j: int| 0 <= j < n implies 0 <= #[trigger] out[j] < n by {
            if j < p {
                assert(out[j] == o[j]);
            } else if j > p {
                assert(out[j] == o[j - 1]);
            }
        }
        assert forall|i: int, j: int| 0 <= i < out.len() && 0 <= j < out.len() && i != j implies out[i] != out[j] by {
            if i != p && j != p {
                let oi = if i < p { i } else { i - 1 };
                let oj = if j < p { j } else { j - 1 };
                assert(out[i] == o[oi] && out[j] == o[oj]);
            } else if i == p {
                let oj = if j < p { j } else { j - 1 };
                assert(out[j] == o[oj]);
            } else {
                let oi = if i < p { i } else { i - 1 };
                assert(out[i] == o[oi]);
            }
        }
        assert forall|i: int, j: int| 0 <= i < j < n implies !instant_before(times[#[trigger] out[i]], times[#[trigger] out[j]])
            && (times[out[i]] == times[out[j]] ==> out[i] < out[j]) by {
            if j < p {
                assert(out[i] == o[i] && out[j] == o[j]);
            } else if j == p {
                assert(out[i] == o[i]);
            } else if i == p {
                assert(out[j] == o[j - 1]);
                assert(!instant_before(times[o[p]], times[o[j - 1]]));
            } else if i < p {
                assert(out[i] == o[i] && out[j] == o[j - 1]);
            } else {
                assert(out[i] == o[i - 1] && out[j] == o[j - 1]);
            }
        }
    }
}

fn older_slot(times: &Vec<UtcTimestamp>, order: &Vec<usize>, t: UtcTimestamp) -> (r: usize)
    requires
        forall|j: int| 0 <= j < order@.len() ==> #[trigger] order@[j] < times@.len(),
    ensures
        r == first_older_at(times@, order@.map_values(|p: usize| p as int), t, 0),
{
    let ghost o = order@.map_values(|p: usize| p as int);
    let mut k: usize = 0;
    while k < order.len() && !timestamp_before(times[order[k]], t)
        invariant
            k <= order@.len(),
            o == order@.map_values(|p: usize| p as int),
            forall|j: int| 0 <= j < order@.len() ==> #[trigger] order@[j] < times@.len(),
            first_older_at(times@, o, t, 0) == first_older_at(times@, o, t, k as int),
        decreases order@.len() - k,
    {
        k = k + 1;
    }
    k
}

/// The positions of the items made at `times`, newest first; items made at the same
/// instant keep their order.
pub fn newest_first_positions(times: &Vec<UtcTimestamp>) -> (r: Vec<usize>)
    ensures
        r@.map_values(|p: usize| p as int) == newest_first_order(times@, times@.len()),
{
    let mut out: Vec<usize> = Vec::new();
    let mut i: usize = 0;
    while i < times.len()
        invariant
            i <= times@.len(),
            out@.map_values(|p: usize| p as int) == newest_first_order(times@, i as nat),
        decreases times@.len() - i,
    {
        proof {
            law_newest_first_order(times@, i as nat);
            assert forall|j: int| 0 <= j < out@.len() implies #[trigger] out@[j] < times@.len() by {
                assert(out@.map_values(|p: usize| p as int)[j] == out@[j] as int);
            }
        }
        let k = older_slot(times, &out, times[i]);
        proof {
            lemma_first_older_at(times@, out@.map_values(|p: usize| p as int), times@[i as int], 0);
        }
        let ghost before = out@;
        out.insert(k, i);
        proof {
            assert(out@.map_values(|p: usize| p as int) =~= before.map_values(|p: usize| p as int).insert(k as int, i as int));
        }
        i = i + 1;
    }
    out
}

/// A recent fact's content or a working summary, with the instant it was made.
#[derive(Debug, Clone, PartialEq, Eq)]
pub struct DatedText {
    pub text: String,
    pub created_at: UtcTimestamp,
}

/// The instants the items were made at.
pub open spec fn dated_instants(items: Seq<DatedText>) -> Seq<UtcTimestamp> {
    items.map_values(|d: DatedText| d.created_at)
}

/// The texts of the items at the positions `order`.
pub open spec fn texts_in_order(items: Seq<DatedText>, order: Seq<int>) -> Seq<String> {
    order.map_values(|p: int| items[p].text)
}

/// Whether the segments hold anything: recent facts, working summaries or archived entries.
pub open spec fn segments_have_content(recent: Seq<DatedText>, working: Seq<DatedText>, archived_entries: nat) -> bool {
    recent.len() > 0 || working.len() > 0 || archived_entries > 0
}

/// How many of the ranked facts, given by their contents, fit `max_tokens` when the
/// segments are empty.
pub open spec fn ranked_facts_kept(ranked: Seq<String>, max_tokens: int, chars_per_token: nat) -> int {
    if ranked.len() == 0 || max_tokens == 0 {
        0
    } else {
        greedy_fill(fact_tokens(ranked, chars_per_token), max_tokens) as int
    }
}

/// What segmented retrieval keeps, by position: the recent facts and the working
/// summaries each newest first, the archived entries in rank order; or, when the segments
/// are empty, a leading run of the ranked facts.
#[derive(Debug, Clone, PartialEq, Eq)]
pub struct SegmentedRetrieval {
    /// Positions in the recent facts of those kept, newest first.
    pub recent: Vec<usize>,
    /// Positions in the working summaries of those kept, newest first.
    pub working: Vec<usize>,
    /// Positions in the ranked archived entries of those kept.
    pub archived: Vec<usize>,
    /// How many of the ranked facts are kept, when the segments are empty.
    pub ranked_kept: usize,
    pub total_tokens: usize,
}

fn instants_of(items: &Vec<DatedText>) -> (r: Vec<UtcTimestamp>)
    ensures
        r@ == dated_instants(items@),
{
    let mut out: Vec<UtcTimestamp> = Vec::new();
    let mut i: usize = 0;
    while i < items.len()
        invariant
            i <= items@.len(),
            out@ == dated_instants(items@.take(i as int)),
        decreases items@.len() - i,
    {
        out.push(items[i].created_at);
        assert(dated_instants(items@.take(i + 1)) =~= dated_instants(items@.take(i as int)).push(items@[i as int].created_at));
        i = i + 1;
    }
    assert(items@.take(items@.len() as int) =~= items@);
    out
}

/// The counts at the positions `order`, as integers.
pub open spec fn counts_in_order(counts: Seq<usize>, order: Seq<int>) -> Seq<int> {
    order.map_values(|p: int| counts[p] as int)
}

fn counts_at(counts: &Vec<usize>, order: &Vec<usize>) -> (r: Vec<usize>)
    requires
        forall|j: int| 0 <= j < order@.len() ==> #[trigger] order@[j] < counts@.len(),
    ensures
        counts_as_ints(r@) == counts_in_order(counts@, order@.map_values(|p: usize| p as int)),
{
    let mut out: Vec<usize> = Vec::new();
    let mut i: usize = 0;
    while i < order.len()
        invariant
            i <= order@.len(),
            forall|j: int| 0 <= j < order@.len() ==> #[trigger] order@[j] < counts@.len(),
            counts_as_ints(out@) == counts_in_order(counts@, order@.take(i as int).map_values(|p: usize| p as int)),
        decreases order@.len() - i,
    {
        let ghost before = counts_as_ints(out@);
        out.push(counts[order[i]]);
        assert(order@.take(i + 1).map_values(|p: usize| p as int) =~= order@.take(i as int).map_values(|p: usize| p as int).push(order@[i as int] as int));
        assert(counts_as_ints(out@) =~= before.push(counts@[order@[i as int] as int] as int));
        assert(counts_as_ints(out@) =~= counts_in_order(counts@, order@.take(i + 1).map_values(|p: usize| p as int)));
        i = i + 1;
    }
    assert(order@.take(order@.len() as int) =~= order@);
    out
}

/// The texts of the items.
pub open spec fn item_texts(items: Seq<DatedText>) -> Seq<String> {
    items.map_values(|d: DatedText| d.text)
}

fn texts_of_items(items: &Vec<DatedText>) -> (r: Vec<String>)
    ensures
        r@ == item_texts(items@),
{
    let mut out: Vec<String> = Vec::new();
    let mut i: usize = 0;
    while i < items.len()
        invariant
            i <= items@.len(),
            out@ == item_texts(items@.take(i as int)),
        decreases items@.len() - i,
    {
        out.push(items[i].text.clone());
        assert(item_texts(items@.take(i + 1)) =~= item_texts(items@.take(i as int)).push(items@[i as int].text));
        i = i + 1;
    }
    assert(items@.take(items@.len() as int) =~= items@);
    out
}

fn leading(v: &Vec<usize>, k: usize) -> (r: Vec<usize>)
    requires
        k <= v@.len(),
    ensures
        r@ == v@.take(k as int),
{
    let mut out: Vec<usize> = Vec::new();
    let mut i: usize = 0;
    while i < k
        invariant
            i <= k <= v@.len(),
            out@ == v@.take(i as int),
        decreases k - i,
    {
        out.push(v[i]);
        assert(out@ =~= v@.take(i + 1));
        i = i + 1;
    }
    out
}

/// What segmented retrieval keeps within `max_tokens`, from when each item was made and
/// the tokens each takes (by any token counter). When the segments hold anything, the
/// recent and the working items are ordered newest first and [`selection_by_counts`] is
/// made over them and the ranked archived entries; else the ranked facts are kept while
/// they fit, as by [`fill_by_counts`].
pub fn retrieve_segmented_by_counts(
    recent_times: &Vec<UtcTimestamp>,
    recent_tokens: &Vec<usize>,
    working_times: &Vec<UtcTimestamp>,
    working_tokens: &Vec<usize>,
    archived_tokens: &Vec<usize>,
    archived_entries: usize,
    ranked_tokens: &Vec<usize>,
    max_tokens: usize,
) -> (r: SegmentedRetrieval)
    requires
        recent_times@.len() == recent_tokens@.len(),
        working_times@.len() == working_tokens@.len(),
    ensures
        r.total_tokens <= max_tokens,
        if recent_times@.len() > 0 || working_times@.len() > 0 || archived_entries > 0 {
            let ro = newest_first_order(recent_times@, recent_times@.len());
            let wo = newest_first_order(working_times@, working_times@.len());
            let rt = counts_in_order(recent_tokens@, ro);
            let wt = counts_in_order(working_tokens@, wo);
            let (rk, wk, ak) = selection_by_counts(rt, wt, counts_as_ints(archived_tokens@), max_tokens as int);
            &&& r.recent@.map_values(|p: usize| p as int) == ro.take(rk)
            &&& r.working@.map_values(|p: usize| p as int) == wo.take(wk)
            &&& r.archived@.map_values(|p: usize| p as int) == ak
            &&& r.ranked_kept == 0
            &&& r.total_tokens == tokens_sum(rt, rk) + tokens_sum(wt, wk) + tokens_at(counts_as_ints(archived_tokens@), ak)
        } else {
            let k = if ranked_tokens@.len() == 0 || max_tokens == 0 {
                0
            } else {
                greedy_fill(counts_as_ints(ranked_tokens@), max_tokens as int) as int
            };
            &&& r.recent@.len() == 0 && r.working@.len() == 0 && r.archived@.len() == 0
            &&& r.ranked_kept == k
            &&& r.total_tokens == tokens_sum(counts_as_ints(ranked_tokens@), k)
        },
{
    if !(recent_times.len() > 0 || working_times.len() > 0 || archived_entries > 0) {
        let fill = fill_by_counts(ranked_tokens, max_tokens);
        return SegmentedRetrieval {
            recent: Vec::new(),
            working: Vec::new(),
            archived: Vec::new(),
            ranked_kept: fill.facts_included,
            total_tokens: fill.total_tokens,
        };
    }
    let ro = newest_first_positions(recent_times);
    let wo = newest_first_positions(working_times);
    let ghost ros = ro@.map_values(|p: usize| p as int);
    let ghost wos = wo@.map_values(|p: usize| p as int);
    proof {
        law_newest_first_order(recent_times@, recent_times@.len());
        law_newest_first_order(working_times@, working_times@.len());
        assert forall|j: int| 0 <= j < ro@.len() implies #[trigger] ro@[j] < recent_tokens@.len() by {
            assert(ros[j] == ro@[j] as int);
        }
        assert forall|j: int| 0 <= j < wo@.len() implies #[trigger] wo@[j] < working_tokens@.len() by {
            assert(wos[j] == wo@[j] as int);
        }
    }
    let rt = counts_at(recent_tokens, &ro);
    let wt = counts_at(working_tokens, &wo);
    let sel = select_by_counts(&rt, &wt, archived_tokens, max_tokens);
    proof {
        lemma_greedy_fill_bound(counts_as_ints(rt@), max_tokens as int);
        let left = max_tokens - tokens_sum(counts_as_ints(rt@), sel.recent_kept as int);
        lemma_greedy_fill_bound(counts_as_ints(wt@), left);
    }
    let recent_kept = leading(&ro, sel.recent_kept);
    let working_kept = leading(&wo, sel.working_kept);
    proof {
        assert(recent_kept@.map_values(|p: usize| p as int) =~= ros.take(sel.recent_kept as int));
        assert(working_kept@.map_values(|p: usize| p as int) =~= wos.take(sel.working_kept as int));
    }
    SegmentedRetrieval {
        recent: recent_kept,
        working: working_kept,
        archived: sel.archived_kept,
        ranked_kept: 0,
        total_tokens: sel.total_tokens,
    }
}

/// What segmented retrieval keeps within `max_tokens`, budgeted by the simple token
/// counter. When the segments hold anything, the recent facts and the working summaries
/// are ordered newest first and the selection of [`segmented_selection`] is made over
/// them and the ranked archived entries; else the ranked facts (contents in rank order)
/// are kept while they fit, as by `fill_token_budget`.
pub fn retrieve_segmented_context(
    recent: &Vec<DatedText>,
    working: &Vec<DatedText>,
    ranked_archived: &Vec<ArchivedEntryText>,
    archived_entries: usize,
    ranked_facts: &Vec<String>,
    max_tokens: usize,
    counter: &SimpleTokenCounter,
) -> (r: SegmentedRetrieval)
    requires
        counter.chars_per_token > 0,
        forall|i: int| 0 <= i < recent@.len() ==> utf8_len(#[trigger] recent@[i].text@) < usize::MAX,
        forall|i: int| 0 <= i < working@.len() ==> utf8_len(#[trigger] working@[i].text@) < usize::MAX,
        forall|i: int| 0 <= i < ranked_archived@.len() ==> utf8_len(archived_entry_text(#[trigger] ranked_archived@[i].summary@, ranked_archived@[i].key_facts@)) <= usize::MAX,
        forall|i: int| 0 <= i < ranked_facts@.len() ==> utf8_len(#[trigger] ranked_facts@[i]@) < usize::MAX,
    ensures
        r.total_tokens <= max_tokens,
        if segments_have_content(recent@, working@, archived_entries as nat) {
            let ro = newest_first_order(dated_instants(recent@), recent@.len());
            let wo = newest_first_order(dated_instants(working@), working@.len());
            let rt = texts_in_order(recent@, ro);
            let wt = texts_in_order(working@, wo);
            let (rk, wk, ak) = segmented_selection(rt, wt, ranked_archived@, max_tokens as int, counter.chars_per_token as nat);
            &&& r.recent@.map_values(|p: usize| p as int) == ro.take(rk)
            &&& r.working@.map_values(|p: usize| p as int) == wo.take(wk)
            &&& r.archived@.map_values(|p: usize| p as int) == ak
            &&& r.ranked_kept == 0
            &&& r.total_tokens == tokens_sum(fact_tokens(rt, counter.chars_per_token as nat), rk)
                + tokens_sum(fact_tokens(wt, counter.chars_per_token as nat), wk)
                + tokens_at(archived_tokens(ranked_archived@, counter.chars_per_token as nat), ak)
        } else {
            let k = ranked_facts_kept(ranked_facts@, max_tokens as int, counter.chars_per_token as nat);
            &&& r.recent@.len() == 0 && r.working@.len() == 0 && r.archived@.len() == 0
            &&& r.ranked_kept == k
            &&& r.total_tokens == tokens_sum(fact_tokens(ranked_facts@, counter.chars_per_token as nat), k)
        },
{
    let cpt = counter.chars_per_token;
    let rtexts = texts_of_items(recent);
    let wtexts = texts_of_items(working);
    proof {
        assert forall|i: int| 0 <= i < rtexts@.len() implies utf8_len(#[trigger] rtexts@[i]@) < usize::MAX by {
            assert(rtexts@[i] == recent@[i].text);
        }
        assert forall|i: int| 0 <= i < wtexts@.len() implies utf8_len(#[trigger] wtexts@[i]@) < usize::MAX by {
            assert(wtexts@[i] == working@[i].text);
        }
    }
    let rtok = line_token_counts(&rtexts, counter);
    let wtok = line_token_counts(&wtexts, counter);
    let atok = entry_tokens(ranked_archived, counter);
    let ftok = line_token_counts(ranked_facts, counter);
    let rtimes = instants_of(recent);
    let wtimes = instants_of(working);
    assert(rtok@.len() == counts_as_ints(rtok@).len() && rtexts@.len() == recent@.len());
    assert(wtok@.len() == counts_as_ints(wtok@).len() && wtexts@.len() == working@.len());
    let r = retrieve_segmented_by_counts(
        &rtimes,
        &rtok,
        &wtimes,
        &wtok,
        &atok,
        archived_entries,
        &ftok,
        max_tokens,
    );
    proof {
        let ro = newest_first_order(dated_instants(recent@), recent@.len());
        let wo = newest_first_order(dated_instants(working@), working@.len());
        law_newest_first_order(dated_instants(recent@), recent@.len());
        law_newest_first_order(dated_instants(working@), working@.len());
        assert(counts_in_order(rtok@, ro) =~= fact_tokens(texts_in_order(recent@, ro), cpt as nat)) by {
            assert forall|j: int| 0 <= j < ro.len() implies #[trigger] counts_in_order(rtok@, ro)[j] == fact_tokens(texts_in_order(recent@, ro), cpt as nat)[j] by {
                let k = ro[j];
                assert(newest_first_order(dated_instants(recent@), recent@.len())[j] == k);
                assert(0 <= k < recent@.len());
                assert(counts_as_ints(rtok@)[k] == rtok@[k] as int);
                assert(counts_as_ints(rtok@)[k] == fact_tokens(rtexts@, cpt as nat)[k]);
                assert(rtexts@[k] == recent@[k].text);
                assert(texts_in_order(recent@, ro)[j] == recent@[k].text);
            }
        }
        assert(counts_in_order(wtok@, wo) =~= fact_tokens(texts_in_order(working@, wo), cpt as nat)) by {
            assert forall|j: int| 0 <= j < wo.len() implies #[trigger] counts_in_order(wtok@, wo)[j] == fact_tokens(texts_in_order(working@, wo), cpt as nat)[j] by {
                let k = wo[j];
                assert(newest_first_order(dated_instants(working@), working@.len())[j] == k);
                assert(0 <= k < working@.len());
                assert(counts_as_ints(wtok@)[k] == wtok@[k] as int);
                assert(counts_as_ints(wtok@)[k] == fact_tokens(wtexts@, cpt as nat)[k]);
                assert(wtexts@[k] == working@[k].text);
                assert(texts_in_order(working@, wo)[j] == working@[k].text);
            }
        }
        assert(counts_as_ints(atok@) == archived_tokens(ranked_archived@, cpt as nat));
    }
    r
}

/// The lines of the kept recent facts.
pub open spec fn recent_lines(facts: Seq<InjectedFact>) -> Seq<char>
    decreases facts.len(),
{
    if facts.len() == 0 {
        Seq::empty()
    } else {
        recent_lines(facts.drop_last()) + "- ["@ + category_name(facts.last().category) + "] "@ + facts.last().content@ + "\n"@
    }
}

/// The lines of the working summaries.
pub open spec fn working_lines(summaries: Seq<String>) -> Seq<char>
    decreases summaries.len(),
{
    if summaries.len() == 0 {
        Seq::empty()
    } else {
        working_lines(summaries.drop_last()) + "- "@ + summaries.last()@ + "\n"@
    }
}

/// The lines of the key facts of an archived entry.
pub open spec fn key_fact_lines(facts: Seq<String>) -> Seq<char>
    decreases facts.len(),
{
    if facts.len() == 0 {
        Seq::empty()
    } else {
        key_fact_lines(facts.drop_last()) + "  * "@ + facts.last()@ + "\n"@
    }
}

/// The lines of the archived entries: each summary, then its key facts.
pub open spec fn archived_lines(entries: Seq<ArchivedEntryText>) -> Seq<char>
    decreases entries.len(),
{
    if entries.len() == 0 {
        Seq::empty()
    } else {
        archived_lines(entries.drop_last()) + "- "@ + entries.last().summary@ + "\n"@ + key_fact_lines(entries.last().key_facts@)
    }
}

/// The sections of the kept segments, each inside its tag, in the order recent, working,
/// archived; a segment with nothing kept has no section.
pub open spec fn segment_sections(recent: Seq<InjectedFact>, working: Seq<String>, archived: Seq<ArchivedEntryText>) -> Seq<Seq<char>> {
    (if recent.len() > 0 {
        seq!["<recent>\n"@ + recent_lines(recent) + "</recent>"@]
    } else {
        Seq::empty()
    }) + (if working.len() > 0 {
        seq!["<working>\n"@ + working_lines(working) + "</working>"@]
    } else {
        Seq::empty()
    }) + (if archived.len() > 0 {
        seq!["<archived>\n"@ + archived_lines(archived) + "</archived>"@]
    } else {
        Seq::empty()
    })
}

fn push_key_fact_lines(out: &mut String, facts: &Vec<String>)
    ensures
        final(out)@ == old(out)@ + key_fact_lines(facts@),
{
    let mut i: usize = 0;
    while i < facts.len()
        invariant
            i <= facts@.len(),
            out@ == old(out)@ + key_fact_lines(facts@.take(i as int)),
        decreases facts@.len() - i,
    {
        out.append("  * ");
        out.append(facts[i].as_str());
        out.append("\n");
        assert(facts@.take(i + 1).drop_last() =~= facts@.take(i as int));
        i = i + 1;
    }
    assert(facts@.take(facts@.len() as int) =~= facts@);
}

/// Writes the kept segments for a prompt: the sections joined by `\n`, or nothing when
/// nothing is kept.
pub fn format_segmented_memory(recent: &Vec<InjectedFact>, working: &Vec<String>, archived: &Vec<ArchivedEntryText>) -> (r: String)
    ensures
        r@ == joined_lines(segment_sections(recent@, working@, archived@)),
{
    let mut sections: Vec<String> = Vec::new();
    assert(sections@.map_values(|l: String| l@) =~= Seq::<Seq<char>>::empty());
    if recent.len() > 0 {
        let mut s = "<recent>\n".to_string();
        let mut i: usize = 0;
        while i < recent.len()
            invariant
                i <= recent@.len(),
                s@ == "<recent>\n"@ + recent_lines(recent@.take(i as int)),
            decreases recent@.len() - i,
        {
            s.append("- [");
            s.append(recent[i].category.as_str());
            s.append("] ");
            s.append(recent[i].content.as_str());
            s.append("\n");
            assert(recent@.take(i + 1).drop_last() =~= recent@.take(i as int));
            i = i + 1;
        }
        assert(recent@.take(recent@.len() as int) =~= recent@);
        s.append("</recent>");
        sections.push(s);
    }
    let ghost after_recent = sections@.map_values(|l: String| l@);
    if working.len() > 0 {
        let mut s = "<working>\n".to_string();
        let mut i: usize = 0;
        while i < working.len()
            invariant
                i <= working@.len(),
                s@ == "<working>\n"@ + working_lines(working@.take(i as int)),
            decreases working@.len() - i,
        {
            s.append("- ");
            s.append(working[i].as_str());
            s.append("\n");
            assert(working@.take(i + 1).drop_last() =~= working@.take(i as int));
            i = i + 1;
        }
        assert(working@.take(working@.len() as int) =~= working@);
        s.append("</working>");
        sections.push(s);
        assert(sections@.map_values(|l: String| l@) =~= after_recent.push(s@));
    }
    let ghost after_working = sections@.map_values(|l: String| l@);
    if archived.len() > 0 {
        let mut s = "<archived>\n".to_string();
        let mut i: usize = 0;
        while i < archived.len()
            invariant
                i <= archived@.len(),
                s@ == "<archived>\n"@ + archived_lines(archived@.take(i as int)),
            decreases archived@.len() - i,
        {
            s.append("- ");
            s.append(archived[i].summary.as_str());
            s.append("\n");
            push_key_fact_lines(&mut s, &archived[i].key_facts);
            assert(archived@.take(i + 1).drop_last() =~= archived@.take(i as int));
            i = i + 1;
        }
        assert(archived@.take(archived@.len() as int) =~= archived@);
        s.append("</archived>");
        sections.push(s);
        assert(sections@.map_values(|l: String| l@) =~= after_working.push(s@));
    }
    assert(sections@.map_values(|l: String| l@) =~= segment_sections(recent@, working@, archived@));
    crate::memory_profile::join_lines(&sections)
}

} // verus!
