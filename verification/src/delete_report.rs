use vstd::prelude::*;
use crate::cascade::{canonical_order, canonical_phases, law_plans_cover_every_domain};

verus! {

/// Whether a backend can roll back a whole thread deletion as one unit.
#[derive(Debug, Clone, Copy, PartialEq, Eq, Structural)]
pub enum DeleteConsistencyLevel {
    /// SQL backends: one transaction for all thread-scoped rows.
    StrongPerThread,
    /// Key-value, object and file backends: several steps, partial progress possible.
    BestEffort,
}

/// The storage domains that a thread deletion clears.
#[derive(Debug, Clone, Copy, PartialEq, Eq, Hash, Structural)]
pub enum DeleteThreadPhase {
    Checkpoints,
    Memory,
    Tools,
    Subagents,
    Sandbox,
    ManageTasks,
    Artifacts,
    Uploads,
    ThreadMeta,
}

/// The name of a phase as it appears in reports (the variant's name).
pub open spec fn phase_name(p: DeleteThreadPhase) -> Seq<char> {
    match p {
        DeleteThreadPhase::Checkpoints => "Checkpoints"@,
        DeleteThreadPhase::Memory => "Memory"@,
        DeleteThreadPhase::Tools => "Tools"@,
        DeleteThreadPhase::Subagents => "Subagents"@,
        DeleteThreadPhase::Sandbox => "Sandbox"@,
        DeleteThreadPhase::ManageTasks => "ManageTasks"@,
        DeleteThreadPhase::Artifacts => "Artifacts"@,
        DeleteThreadPhase::Uploads => "Uploads"@,
        DeleteThreadPhase::ThreadMeta => "ThreadMeta"@,
    }
}

impl DeleteThreadPhase {
    /// The variant's name, as `{:?}` prints it.
    pub fn name(&self) -> (r: &'static str)
        ensures
            r@ == phase_name(*self),
    {
        match self {
            DeleteThreadPhase::Checkpoints => "Checkpoints",
            DeleteThreadPhase::Memory => "Memory",
            DeleteThreadPhase::Tools => "Tools",
            DeleteThreadPhase::Subagents => "Subagents",
            DeleteThreadPhase::Sandbox => "Sandbox",
            DeleteThreadPhase::ManageTasks => "ManageTasks",
            DeleteThreadPhase::Artifacts => "Artifacts",
            DeleteThreadPhase::Uploads => "Uploads",
            DeleteThreadPhase::ThreadMeta => "ThreadMeta",
        }
    }
}

/// Result status of a delete attempt.
#[derive(Debug, Clone, PartialEq, Eq)]
pub enum DeleteThreadStatus {
    Complete,
    Partial { failed_at: DeleteThreadPhase, error: String },
    Failed { at: DeleteThreadPhase, error: String },
}

/// Mathematical value of a [`DeleteThreadStatus`].
pub enum StatusView {
    Complete,
    Partial { failed_at: DeleteThreadPhase, error: Seq<char> },
    Failed { at: DeleteThreadPhase, error: Seq<char> },
}

impl View for DeleteThreadStatus {
    type V = StatusView;

    open spec fn view(&self) -> StatusView {
        match self {
            DeleteThreadStatus::Complete => StatusView::Complete,
            DeleteThreadStatus::Partial { failed_at, error } => StatusView::Partial {
                failed_at: *failed_at,
                error: error@,
            },
            DeleteThreadStatus::Failed { at, error } => StatusView::Failed {
                at: *at,
                error: error@,
            },
        }
    }
}

/// The one-line summary of a status: `complete`, `partial: failed_at=<phase>, error=<e>`
/// or `failed: at=<phase>, error=<e>`.
pub open spec fn summary_text(s: StatusView) -> Seq<char> {
    match s {
        StatusView::Complete => "complete"@,
        StatusView::Partial { failed_at, error } => "partial: failed_at="@ + phase_name(failed_at)
            + ", error="@ + error,
        StatusView::Failed { at, error } => "failed: at="@ + phase_name(at) + ", error="@ + error,
    }
}

/// Machine-readable record of a thread deletion, for auditing and retries.
/// Identifiers are UUIDs held as their 128-bit values.
#[derive(Debug, Clone)]
pub struct DeleteThreadReport {
    pub operation_id: u128,
    pub thread_id: u128,
    pub status: DeleteThreadStatus,
    pub completed_phases: Vec<DeleteThreadPhase>,
    pub consistency: DeleteConsistencyLevel,
    /// Whether calling delete again may succeed (true for the idempotent cascade).
    pub retryable: bool,
}

impl DeleteThreadReport {
    /// Human-readable summary of the status.
    pub fn summary(&self) -> (r: String)
        ensures
            r@ == summary_text(self.status@),
    {
        match &self.status {
            DeleteThreadStatus::Complete => "complete".to_string(),
            DeleteThreadStatus::Partial { failed_at, error } => {
                let mut s = "partial: failed_at=".to_string();
                s.append(failed_at.name());
                s.append(", error=");
                s.append(error.as_str());
                s
            },
            DeleteThreadStatus::Failed { at, error } => {
                let mut s = "failed: at=".to_string();
                s.append(at.name());
                s.append(", error=");
                s.append(error.as_str());
                s
            },
        }
    }

    /// Whether every phase was deleted.
    pub fn success(&self) -> (r: bool)
        ensures
            r <==> self.status@ is Complete,
    {
        match self.status {
            DeleteThreadStatus::Complete => true,
            _ => false,
        }
    }
}

/// Per-domain residual probe: for each phase, whether durable data of that domain
/// still exists for the thread. Holds at most one entry per phase.
pub struct DeleteVerifyReport {
    pub thread_id: u128,
    pub entries: Vec<(DeleteThreadPhase, bool)>,
}

/// Index of the entry for `p`, if any.
pub open spec fn entry_index(entries: Seq<(DeleteThreadPhase, bool)>, p: DeleteThreadPhase) -> int
    decreases entries.len(),
{
    if entries.len() == 0 {
        -1
    } else if entries.last().0 == p {
        entries.len() - 1
    } else {
        entry_index(entries.drop_last(), p)
    }
}

pub proof fn lemma_entry_index(entries: Seq<(DeleteThreadPhase, bool)>, p: DeleteThreadPhase)
    ensures
        -1 <= entry_index(entries, p) < entries.len(),
        entry_index(entries, p) >= 0 ==> entries[entry_index(entries, p)].0 == p,
        entry_index(entries, p) == -1 <==> forall|i: int|
            0 <= i < entries.len() ==> (#[trigger] entries[i]).0 != p,
    decreases entries.len(),
{
    if entries.len() > 0 {
        lemma_entry_index(entries.drop_last(), p);
        if entries.last().0 != p {
            assert forall|i: int| 0 <= i < entries.drop_last().len() implies (#[trigger] entries[i]).0
                == entries.drop_last()[i].0 by {}
        }
    }
}

pub proof fn lemma_entry_index_at(entries: Seq<(DeleteThreadPhase, bool)>, p: DeleteThreadPhase, k: int)
    requires
        0 <= k < entries.len(),
        entries[k].0 == p,
        forall|i: int, j: int| 0 <= i < j < entries.len() ==> (#[trigger] entries[i]).0 != (#[trigger] entries[j]).0,
    ensures
        entry_index(entries, p) == k,
    decreases entries.len(),
{
    if k < entries.len() - 1 {
        assert(entries[k].0 != entries[entries.len() - 1].0);
        let d = entries.drop_last();
        assert(d[k] == entries[k]);
        assert forall|i: int, j: int| 0 <= i < j < d.len() implies (#[trigger] d[i]).0 != (#[trigger] d[j]).0 by {
            assert(d[i] == entries[i] && d[j] == entries[j]);
        }
        lemma_entry_index_at(d, p, k);
    }
}

impl DeleteVerifyReport {
    /// Each phase occurs at most once among the entries.
    pub open spec fn wf(&self) -> bool {
        forall|i: int, j: int|
            0 <= i < j < self.entries@.len() ==> (#[trigger] self.entries@[i]).0
                != (#[trigger] self.entries@[j]).0
    }

    /// The recorded probe result of a phase.
    pub open spec fn residual(&self, p: DeleteThreadPhase) -> Option<bool> {
        let k = entry_index(self.entries@, p);
        if k >= 0 {
            Some(self.entries@[k].1)
        } else {
            None
        }
    }

    pub fn new(thread_id: u128) -> (r: Self)
        ensures
            r.thread_id == thread_id,
            r.wf(),
            forall|p: DeleteThreadPhase| r.residual(p) is None,
    {
        DeleteVerifyReport { thread_id, entries: Vec::new() }
    }

    fn find(&self, p: DeleteThreadPhase) -> (r: Option<usize>)
        ensures
            r matches Some(k) ==> k < self.entries@.len() && self.entries@[k as int].0 == p,
            r is None ==> forall|i: int| 0 <= i < self.entries@.len() ==> (#[trigger] self.entries@[i]).0 != p,
    {
        let mut i: usize = 0;
        while i < self.entries.len()
            invariant
                i <= self.entries@.len(),
                forall|j: int| 0 <= j < i ==> (#[trigger] self.entries@[j]).0 != p,
            decreases self.entries@.len() - i,
        {
            if self.entries[i].0 == p {
                return Some(i);
            }
            i = i + 1;
        }
        None
    }

    /// Records the probe result of a phase, replacing an earlier one.
    pub fn insert(&mut self, p: DeleteThreadPhase, residual: bool)
        requires
            old(self).wf(),
        ensures
            final(self).wf(),
            final(self).thread_id == old(self).thread_id,
            final(self).residual(p) == Some(residual),
            forall|q: DeleteThreadPhase| q != p ==> final(self).residual(q) == old(self).residual(q),
    {
        proof {
            lemma_entry_index(self.entries@, p);
        }
        let ghost old_entries = self.entries@;
        match self.find(p) {
            Some(k) => {
                self.entries.set(k, (p, residual));
                proof {
                    assert(self.entries@ == old_entries.update(k as int, (p, residual)));
                    assert(self.wf()) by {
                        assert forall|i: int, j: int| 0 <= i < j < self.entries@.len() implies (#[trigger] self.entries@[i]).0
                            != (#[trigger] self.entries@[j]).0 by {
                            assert(old_entries[i].0 != old_entries[j].0);
                        }
                    }
                    lemma_entry_index_at(self.entries@, p, k as int);
                    assert forall|q: DeleteThreadPhase| q != p implies self.residual(q) == old(self).residual(q) by {
                        lemma_entry_index(self.entries@, q);
                        lemma_entry_index(old_entries, q);
                        let a = entry_index(self.entries@, q);
                        let b = entry_index(old_entries, q);
                        if a >= 0 {
                            lemma_entry_index_at(old_entries, q, a);
                        }
                        if b >= 0 {
                            lemma_entry_index_at(self.entries@, q, b);
                        }
                    }
                }
            },
            None => {
                self.entries.push((p, residual));
                proof {
                    assert(self.entries@ == old_entries.push((p, residual)));
                    assert(self.wf()) by {
                        assert forall|i: int, j: int| 0 <= i < j < self.entries@.len() implies (#[trigger] self.entries@[i]).0
                            != (#[trigger] self.entries@[j]).0 by {
                            if j < old_entries.len() {
                                assert(old_entries[i].0 != old_entries[j].0);
                            } else {
                                assert(old_entries[i].0 != p);
                            }
                        }
                    }
                    lemma_entry_index_at(self.entries@, p, old_entries.len() as int);
                    assert forall|q: DeleteThreadPhase| q != p implies self.residual(q) == old(self).residual(q) by {
                        lemma_entry_index(self.entries@, q);
                        lemma_entry_index(old_entries, q);
                        let a = entry_index(self.entries@, q);
                        let b = entry_index(old_entries, q);
                        if a >= 0 {
                            assert(a < old_entries.len());
                            lemma_entry_index_at(old_entries, q, a);
                        }
                        if b >= 0 {
                            lemma_entry_index_at(self.entries@, q, b);
                        }
                    }
                }
            },
        }
    }

    /// The recorded probe result of a phase, if any.
    pub fn get(&self, p: DeleteThreadPhase) -> (r: Option<bool>)
        requires
            self.wf(),
        ensures
            r == self.residual(p),
    {
        proof {
            lemma_entry_index(self.entries@, p);
        }
        match self.find(p) {
            Some(k) => Some(self.entries[k].1),
            None => None,
        }
    }

    /// Whether any phase still has data.
    pub fn any_residual(&self) -> (r: bool)
        requires
            self.wf(),
        ensures
            r <==> exists|p: DeleteThreadPhase| self.residual(p) == Some(true),
    {
        let mut i: usize = 0;
        while i < self.entries.len()
            invariant
                i <= self.entries@.len(),
                self.wf(),
                forall|j: int| 0 <= j < i ==> !(#[trigger] self.entries@[j]).1,
            decreases self.entries@.len() - i,
        {
            if self.entries[i].1 {
                proof {
                    let p = self.entries@[i as int].0;
                    lemma_entry_index_at(self.entries@, p, i as int);
                    assert(self.residual(p) == Some(true));
                }
                return true;
            }
            i = i + 1;
        }
        proof {
            assert forall|p: DeleteThreadPhase| self.residual(p) != Some(true) by {
                lemma_entry_index(self.entries@, p);
            }
        }
        false
    }
}

impl DeleteVerifyReport {
    /// The phases a verification probes, in the order of [`canonical_order`]: all nine.
    pub fn verify_phases() -> (r: Vec<DeleteThreadPhase>)
        ensures
            r@ == canonical_order(),
    {
        canonical_phases()
    }

    /// The residual report of one probe per phase, the probes given in the order of
    /// [`verify_phases`]: every phase has its probe's result, so a verification whose
    /// probes all find nothing reports no residue.
    pub fn from_phase_probes(thread_id: u128, results: &Vec<bool>) -> (r: Self)
        requires
            results@.len() == canonical_order().len(),
        ensures
            r.wf(),
            r.thread_id == thread_id,
            forall|i: int| 0 <= i < results@.len() ==> r.residual(#[trigger] canonical_order()[i]) == Some(results@[i]),
            forall|p: DeleteThreadPhase| #[trigger] r.residual(p) is Some,
            (forall|i: int| 0 <= i < results@.len() ==> !#[trigger] results@[i]) ==> forall|p: DeleteThreadPhase|
                #[trigger] r.residual(p) == Some(false),
    {
        let phases = canonical_phases();
        let mut probes: Vec<(DeleteThreadPhase, bool)> = Vec::new();
        let mut i: usize = 0;
        while i < results.len()
            invariant
                i <= results@.len(),
                results@.len() == canonical_order().len(),
                phases@ == canonical_order(),
                probes@.len() == i,
                forall|j: int| 0 <= j < i ==> #[trigger] probes@[j] == (canonical_order()[j], results@[j]),
            decreases results@.len() - i,
        {
            probes.push((phases[i], results[i]));
            i = i + 1;
        }
        let r = DeleteVerifyReport::from_probes(thread_id, &probes);
        proof {
            law_plans_cover_every_domain(DeleteThreadPhase::Memory);
            let c = canonical_order();
            assert forall|a: int, b: int| 0 <= a < b < probes@.len() implies (#[trigger] probes@[a]).0 != (#[trigger] probes@[b]).0 by {
                assert(probes@[a].0 == c[a] && probes@[b].0 == c[b]);
            }
            assert forall|k: int| 0 <= k < results@.len() implies r.residual(#[trigger] canonical_order()[k]) == Some(results@[k]) by {
                lemma_entry_index_at(probes@, c[k], k);
            }
            assert forall|p: DeleteThreadPhase| #[trigger] r.residual(p) is Some by {
                law_plans_cover_every_domain(p);
                let k = choose|k: int| 0 <= k < c.len() && c[k] == p;
                lemma_entry_index_at(probes@, c[k], k);
            }
            if forall|k: int| 0 <= k < results@.len() ==> !#[trigger] results@[k] {
                assert forall|p: DeleteThreadPhase| #[trigger] r.residual(p) == Some(false) by {
                    law_plans_cover_every_domain(p);
                    let k = choose|k: int| 0 <= k < c.len() && c[k] == p;
                    lemma_entry_index_at(probes@, c[k], k);
                    assert(!results@[k]);
                }
            }
        }
        r
    }
}

/// Rows a thread still has in each table of a SQL store, as `COUNT(*)` reports them.
#[derive(Debug, Clone, Copy, PartialEq, Eq, Structural)]
pub struct ResidualCounts {
    pub checkpoints_latest: i64,
    pub checkpoints_step: i64,
    pub memory_facts: i64,
    pub tool_records: i64,
    pub subagent_tasks: i64,
    pub sandbox_executions: i64,
    pub manage_tasks: i64,
    pub artifacts: i64,
    pub thread_uploads: i64,
    pub thread_meta: i64,
}

/// Whether a SQL store still holds data of a phase, by its row counts.
pub open spec fn residual_rows(c: ResidualCounts, p: DeleteThreadPhase) -> bool {
    match p {
        DeleteThreadPhase::Checkpoints => c.checkpoints_latest + c.checkpoints_step > 0,
        DeleteThreadPhase::Memory => c.memory_facts > 0,
        DeleteThreadPhase::Tools => c.tool_records > 0,
        DeleteThreadPhase::Subagents => c.subagent_tasks > 0,
        DeleteThreadPhase::Sandbox => c.sandbox_executions > 0,
        DeleteThreadPhase::ManageTasks => c.manage_tasks > 0,
        DeleteThreadPhase::Artifacts => c.artifacts > 0,
        DeleteThreadPhase::Uploads => c.thread_uploads > 0,
        DeleteThreadPhase::ThreadMeta => c.thread_meta > 0,
    }
}

impl DeleteVerifyReport {
    /// The residual report of a SQL store: a phase has data left when its tables still
    /// have rows of the thread.
    pub fn from_row_counts(thread_id: u128, counts: &ResidualCounts) -> (r: Self)
        requires
            i64::MIN <= counts.checkpoints_latest + counts.checkpoints_step <= i64::MAX,
        ensures
            r.wf(),
            r.thread_id == thread_id,
            forall|p: DeleteThreadPhase| #[trigger] r.residual(p) == Some(residual_rows(*counts, p)),
    {
        let mut r = DeleteVerifyReport::new(thread_id);
        r.insert(DeleteThreadPhase::Checkpoints, counts.checkpoints_latest + counts.checkpoints_step > 0);
        r.insert(DeleteThreadPhase::Memory, counts.memory_facts > 0);
        r.insert(DeleteThreadPhase::Tools, counts.tool_records > 0);
        r.insert(DeleteThreadPhase::Subagents, counts.subagent_tasks > 0);
        r.insert(DeleteThreadPhase::Sandbox, counts.sandbox_executions > 0);
        r.insert(DeleteThreadPhase::ManageTasks, counts.manage_tasks > 0);
        r.insert(DeleteThreadPhase::Artifacts, counts.artifacts > 0);
        r.insert(DeleteThreadPhase::Uploads, counts.thread_uploads > 0);
        r.insert(DeleteThreadPhase::ThreadMeta, counts.thread_meta > 0);
        assert forall|p: DeleteThreadPhase| #[trigger] r.residual(p) == Some(residual_rows(*counts, p)) by {
            match p {
                DeleteThreadPhase::Checkpoints => {},
                DeleteThreadPhase::Memory => {},
                DeleteThreadPhase::Tools => {},
                DeleteThreadPhase::Subagents => {},
                DeleteThreadPhase::Sandbox => {},
                DeleteThreadPhase::ManageTasks => {},
                DeleteThreadPhase::Artifacts => {},
                DeleteThreadPhase::Uploads => {},
                DeleteThreadPhase::ThreadMeta => {},
            }
        }
        r
    }

    /// The residual report made of probe results in order; a later probe of a phase
    /// replaces an earlier one.
    pub fn from_probes(thread_id: u128, probes: &Vec<(DeleteThreadPhase, bool)>) -> (r: Self)
        ensures
            r.wf(),
            r.thread_id == thread_id,
            forall|p: DeleteThreadPhase| #[trigger] r.residual(p) == (if entry_index(probes@, p) >= 0 {
                Some(probes@[entry_index(probes@, p)].1)
            } else {
                None
            }),
    {
        let mut r = DeleteVerifyReport::new(thread_id);
        let mut i: usize = 0;
        while i < probes.len()
            invariant
                i <= probes@.len(),
                r.wf(),
                r.thread_id == thread_id,
                forall|p: DeleteThreadPhase| #[trigger] r.residual(p) == (if entry_index(probes@.take(i as int), p) >= 0 {
                    Some(probes@.take(i as int)[entry_index(probes@.take(i as int), p)].1)
                } else {
                    None
                }),
            decreases probes@.len() - i,
        {
            let (p, residual) = probes[i];
            r.insert(p, residual);
            proof {
                let t1 = probes@.take(i + 1);
                assert(t1.drop_last() =~= probes@.take(i as int));
                assert(t1.last() == (p, residual));
                assert forall|q: DeleteThreadPhase| #[trigger] r.residual(q) == (if entry_index(t1, q) >= 0 {
                    Some(t1[entry_index(t1, q)].1)
                } else {
                    None
                }) by {
                    if q != p {
                        lemma_entry_index(probes@.take(i as int), q);
                        let k = entry_index(probes@.take(i as int), q);
                        if k >= 0 {
                            assert(t1[k] == probes@.take(i as int)[k]);
                        }
                    }
                }
            }
            i = i + 1;
        }
        assert(probes@.take(probes@.len() as int) =~= probes@);
        r
    }
}

} // verus!
