//! Thread deletion as a state machine: the backend runs one phase at a time and
//! reports how it went; the machine decides what happens next and builds the report.

use vstd::prelude::*;
use crate::delete_report::{DeleteConsistencyLevel, DeleteThreadPhase, DeleteThreadReport, DeleteThreadStatus, StatusView};
use crate::errors::StateError;
use crate::ids::new_random_id;

verus! {

/// How one phase of a deletion went.
pub enum PhaseOutcome {
    /// Every object of the phase is gone (missing objects count as gone).
    Done,
    /// The phase failed; the deletion stops and reports the failure.
    Failed(String),
    /// A failure that ends the whole call with an error instead of a report.
    Aborted(String),
}

pub enum OutcomeView {
    Done,
    Failed(Seq<char>),
    Aborted(Seq<char>),
}

impl View for PhaseOutcome {
    type V = OutcomeView;

    open spec fn view(&self) -> OutcomeView {
        match self {
            PhaseOutcome::Done => OutcomeView::Done,
            PhaseOutcome::Failed(e) => OutcomeView::Failed(e@),
            PhaseOutcome::Aborted(e) => OutcomeView::Aborted(e@),
        }
    }
}

/// Mathematical value of a [`DeleteThreadReport`].
pub struct ReportView {
    pub operation_id: u128,
    pub thread_id: u128,
    pub status: StatusView,
    pub completed: Seq<DeleteThreadPhase>,
    pub consistency: DeleteConsistencyLevel,
    pub retryable: bool,
}

impl View for DeleteThreadReport {
    type V = ReportView;

    open spec fn view(&self) -> ReportView {
        ReportView {
            operation_id: self.operation_id,
            thread_id: self.thread_id,
            status: self.status@,
            completed: self.completed_phases@,
            consistency: self.consistency,
            retryable: self.retryable,
        }
    }
}

/// The order in which phases are deleted, and whether the backend does it atomically.
pub struct CascadePlan {
    pub phases: Vec<DeleteThreadPhase>,
    pub consistency: DeleteConsistencyLevel,
}

/// The domains in the order of the SQL transaction (and of the local file store).
pub open spec fn canonical_order() -> Seq<DeleteThreadPhase> {
    seq![
        DeleteThreadPhase::Checkpoints,
        DeleteThreadPhase::Memory,
        DeleteThreadPhase::Tools,
        DeleteThreadPhase::Subagents,
        DeleteThreadPhase::Sandbox,
        DeleteThreadPhase::ManageTasks,
        DeleteThreadPhase::Artifacts,
        DeleteThreadPhase::Uploads,
        DeleteThreadPhase::ThreadMeta,
    ]
}

/// The key-value store removes the thread record first.
pub open spec fn key_value_order() -> Seq<DeleteThreadPhase> {
    seq![
        DeleteThreadPhase::ThreadMeta,
        DeleteThreadPhase::Checkpoints,
        DeleteThreadPhase::Memory,
        DeleteThreadPhase::Tools,
        DeleteThreadPhase::Subagents,
        DeleteThreadPhase::Sandbox,
        DeleteThreadPhase::ManageTasks,
        DeleteThreadPhase::Artifacts,
        DeleteThreadPhase::Uploads,
    ]
}

/// The object store removes the thread record after memory.
pub open spec fn object_store_order() -> Seq<DeleteThreadPhase> {
    seq![
        DeleteThreadPhase::Checkpoints,
        DeleteThreadPhase::Memory,
        DeleteThreadPhase::ThreadMeta,
        DeleteThreadPhase::Tools,
        DeleteThreadPhase::Subagents,
        DeleteThreadPhase::Sandbox,
        DeleteThreadPhase::ManageTasks,
        DeleteThreadPhase::Artifacts,
        DeleteThreadPhase::Uploads,
    ]
}

pub(crate) fn canonical_phases() -> (r: Vec<DeleteThreadPhase>)
    ensures
        r@ == canonical_order(),
{
    let r = vec![
        DeleteThreadPhase::Checkpoints,
        DeleteThreadPhase::Memory,
        DeleteThreadPhase::Tools,
        DeleteThreadPhase::Subagents,
        DeleteThreadPhase::Sandbox,
        DeleteThreadPhase::ManageTasks,
        DeleteThreadPhase::Artifacts,
        DeleteThreadPhase::Uploads,
        DeleteThreadPhase::ThreadMeta,
    ];
    assert(r@ =~= canonical_order());
    r
}

impl CascadePlan {
    /// Local file store: canonical order, step by step.
    pub fn local_fs() -> (r: Self)
        ensures
            r.phases@ == canonical_order(),
            r.consistency == DeleteConsistencyLevel::BestEffort,
    {
        CascadePlan { phases: canonical_phases(), consistency: DeleteConsistencyLevel::BestEffort }
    }

    /// SQLite and Postgres: canonical order inside one transaction.
    pub fn transactional() -> (r: Self)
        ensures
            r.phases@ == canonical_order(),
            r.consistency == DeleteConsistencyLevel::StrongPerThread,
    {
        CascadePlan {
            phases: canonical_phases(),
            consistency: DeleteConsistencyLevel::StrongPerThread,
        }
    }

    /// Redis: thread record first, step by step.
    pub fn key_value() -> (r: Self)
        ensures
            r.phases@ == key_value_order(),
            r.consistency == DeleteConsistencyLevel::BestEffort,
    {
        let phases = vec![
            DeleteThreadPhase::ThreadMeta,
            DeleteThreadPhase::Checkpoints,
            DeleteThreadPhase::Memory,
            DeleteThreadPhase::Tools,
            DeleteThreadPhase::Subagents,
            DeleteThreadPhase::Sandbox,
            DeleteThreadPhase::ManageTasks,
            DeleteThreadPhase::Artifacts,
            DeleteThreadPhase::Uploads,
        ];
        assert(phases@ =~= key_value_order());
        CascadePlan { phases, consistency: DeleteConsistencyLevel::BestEffort }
    }

    /// S3-compatible object store: thread record after memory, step by step.
    pub fn object_store() -> (r: Self)
        ensures
            r.phases@ == object_store_order(),
            r.consistency == DeleteConsistencyLevel::BestEffort,
    {
        let phases = vec![
            DeleteThreadPhase::Checkpoints,
            DeleteThreadPhase::Memory,
            DeleteThreadPhase::ThreadMeta,
            DeleteThreadPhase::Tools,
            DeleteThreadPhase::Subagents,
            DeleteThreadPhase::Sandbox,
            DeleteThreadPhase::ManageTasks,
            DeleteThreadPhase::Artifacts,
            DeleteThreadPhase::Uploads,
        ];
        assert(phases@ =~= object_store_order());
        CascadePlan { phases, consistency: DeleteConsistencyLevel::BestEffort }
    }
}

/// The status reported when the phase `p` fails with `e`.
pub open spec fn failure_status(c: DeleteConsistencyLevel, p: DeleteThreadPhase, e: Seq<char>) -> StatusView {
    match c {
        DeleteConsistencyLevel::BestEffort => StatusView::Partial { failed_at: p, error: e },
        DeleteConsistencyLevel::StrongPerThread => StatusView::Failed { at: p, error: e },
    }
}

/// The phases reported as completed when the phase at index `k` fails: the ones before it
/// for step-by-step backends, none for transactional ones (the transaction is rolled back).
pub open spec fn failure_completed(
    c: DeleteConsistencyLevel,
    plan: Seq<DeleteThreadPhase>,
    k: int,
) -> Seq<DeleteThreadPhase> {
    match c {
        DeleteConsistencyLevel::BestEffort => plan.take(k),
        DeleteConsistencyLevel::StrongPerThread => Seq::empty(),
    }
}

/// Where a deletion stands after a sequence of phase outcomes.
pub enum CascadeModel {
    /// The first `k` phases are done and the next one is to run.
    Running(nat),
    /// The deletion ended with a report: status and completed phases.
    Reported(StatusView, Seq<DeleteThreadPhase>),
    /// The deletion ended with a backend error.
    Aborted(Seq<char>),
}

/// Outcomes that the machine can have seen: at most one per phase, and only the last
/// one may be other than `Done`.
pub open spec fn valid_outcomes(plan: Seq<DeleteThreadPhase>, outcomes: Seq<OutcomeView>) -> bool {
    &&& outcomes.len() <= plan.len()
    &&& forall|i: int| 0 <= i < outcomes.len() - 1 ==> #[trigger] outcomes[i] is Done
}

/// The state of a deletion of the phases `plan` after `outcomes`.
pub open spec fn cascade_model(
    plan: Seq<DeleteThreadPhase>,
    c: DeleteConsistencyLevel,
    outcomes: Seq<OutcomeView>,
) -> CascadeModel {
    let k = outcomes.len() as int;
    if k == 0 {
        if plan.len() == 0 {
            CascadeModel::Reported(StatusView::Complete, plan)
        } else {
            CascadeModel::Running(0)
        }
    } else {
        match outcomes[k - 1] {
            OutcomeView::Done => if k == plan.len() {
                CascadeModel::Reported(StatusView::Complete, plan)
            } else {
                CascadeModel::Running(k as nat)
            },
            OutcomeView::Failed(e) => CascadeModel::Reported(
                failure_status(c, plan[k - 1], e),
                failure_completed(c, plan, k - 1),
            ),
            OutcomeView::Aborted(e) => CascadeModel::Aborted(e),
        }
    }
}

/// What the backend has to do next.
#[derive(Debug, Clone, Copy, PartialEq, Eq, Structural)]
pub enum CascadeStep {
    /// Delete the data of this phase and report the outcome with `record_phase`.
    RunPhase(DeleteThreadPhase),
    /// Persist `audit_report()` and report the outcome with `record_audit`.
    PersistAudit,
    /// Take the result with `into_result`.
    Finished,
}

/// Internal stage of a deletion.
pub enum CascadeState {
    Running { done: usize },
    Auditing { report: DeleteThreadReport, required: bool },
    Finished { result: Result<DeleteThreadReport, StateError> },
}

/// A thread deletion in progress.
pub struct DeleteCascade {
    pub operation_id: u128,
    pub thread_id: u128,
    pub plan: CascadePlan,
    pub state: CascadeState,
    /// The phase outcomes recorded so far.
    pub outcomes: Ghost<Seq<OutcomeView>>,
}

impl DeleteCascade {
    /// The report that a deletion with this status and these completed phases produces.
    pub open spec fn expected_report(&self, s: StatusView, completed: Seq<DeleteThreadPhase>) -> ReportView {
        ReportView {
            operation_id: self.operation_id,
            thread_id: self.thread_id,
            status: s,
            completed: completed,
            consistency: self.plan.consistency,
            retryable: true,
        }
    }

    pub open spec fn model(&self) -> CascadeModel {
        cascade_model(self.plan.phases@, self.plan.consistency, self.outcomes@)
    }

    /// The machine's state agrees with the model of the outcomes seen so far.
    pub open spec fn wf(&self) -> bool {
        &&& valid_outcomes(self.plan.phases@, self.outcomes@)
        &&& match self.model() {
            CascadeModel::Running(k) => self.state matches CascadeState::Running { done } && done == k,
            CascadeModel::Reported(s, completed) => match self.state {
                CascadeState::Auditing { report, required } => report@ == self.expected_report(s, completed)
                    && required == (s is Complete),
                CascadeState::Finished { result } => match result {
                    Ok(report) => report@ == self.expected_report(s, completed),
                    Err(_) => s is Complete,
                },
                CascadeState::Running { .. } => false,
            },
            CascadeModel::Aborted(e) => self.state matches CascadeState::Finished { result: Err(StateError::Backend(m)) } && m@ == e,
        }
    }

    /// Begins the deletion of `thread_id` with the given operation id.
    pub fn start_with_operation(operation_id: u128, thread_id: u128, plan: CascadePlan) -> (r: Self)
        ensures
            r.wf(),
            r.operation_id == operation_id,
            r.thread_id == thread_id,
            r.plan == plan,
            r.outcomes@ == Seq::<OutcomeView>::empty(),
    {
        if plan.phases.len() == 0 {
            let report = DeleteThreadReport {
                operation_id,
                thread_id,
                status: DeleteThreadStatus::Complete,
                completed_phases: Vec::new(),
                consistency: plan.consistency,
                retryable: true,
            };
            let r = DeleteCascade {
                operation_id,
                thread_id,
                plan,
                state: CascadeState::Auditing { report, required: true },
                outcomes: Ghost(Seq::empty()),
            };
            assert(r.plan.phases@ =~= Seq::<DeleteThreadPhase>::empty());
            r
        } else {
            DeleteCascade {
                operation_id,
                thread_id,
                plan,
                state: CascadeState::Running { done: 0 },
                outcomes: Ghost(Seq::empty()),
            }
        }
    }

    /// Begins the deletion of `thread_id` under a fresh random operation id.
    pub fn start(thread_id: u128, plan: CascadePlan) -> (r: Self)
        ensures
            r.wf(),
            r.thread_id == thread_id,
            r.plan == plan,
            r.outcomes@ == Seq::<OutcomeView>::empty(),
    {
        let operation_id = new_random_id();
        Self::start_with_operation(operation_id, thread_id, plan)
    }

    /// What to do next.
    pub fn next_step(&self) -> (r: CascadeStep)
        requires
            self.wf(),
        ensures
            match self.state {
                CascadeState::Running { done } => r == CascadeStep::RunPhase(self.plan.phases@[done as int])
                    && done < self.plan.phases@.len(),
                CascadeState::Auditing { .. } => r == CascadeStep::PersistAudit,
                CascadeState::Finished { .. } => r == CascadeStep::Finished,
            },
    {
        match &self.state {
            CascadeState::Running { done } => CascadeStep::RunPhase(self.plan.phases[*done]),
            CascadeState::Auditing { .. } => CascadeStep::PersistAudit,
            CascadeState::Finished { .. } => CascadeStep::Finished,
        }
    }

    /// Records how the current phase went. When that ends the deletion with a report (the
    /// last phase done, or a phase failed), the report goes to the audit step, required
    /// only when complete; only an aborted phase finishes the deletion at once.
    pub fn record_phase(&mut self, outcome: PhaseOutcome)
        requires
            old(self).wf(),
            old(self).state is Running,
        ensures
            final(self).wf(),
            final(self).operation_id == old(self).operation_id,
            final(self).thread_id == old(self).thread_id,
            final(self).plan == old(self).plan,
            final(self).outcomes@ == old(self).outcomes@.push(outcome@),
            final(self).model() matches CascadeModel::Reported(s, completed) ==> (final(self).state matches CascadeState::Auditing { report, required }
                && report@ == final(self).expected_report(s, completed) && required == (s is Complete)),
    {
        let done = match &self.state {
            CascadeState::Running { done } => *done,
            _ => 0,
        };
        let n = self.plan.phases.len();
        let ghost old_outcomes = self.outcomes@;
        assert(done < n);
        proof {
            assert(old_outcomes.len() == done);
            self.outcomes@ = old_outcomes.push(outcome@);
        }
        assert(forall|i: int| 0 <= i < old_outcomes.len() ==> #[trigger] self.outcomes@[i] == old_outcomes[i]);
        let phase = self.plan.phases[done];
        match outcome {
            PhaseOutcome::Done => {
                if done + 1 == n {
                    let completed = self.plan.phases.clone();
                    assert(completed@ =~= self.plan.phases@);
                    let report = DeleteThreadReport {
                        operation_id: self.operation_id,
                        thread_id: self.thread_id,
                        status: DeleteThreadStatus::Complete,
                        completed_phases: completed,
                        consistency: self.plan.consistency,
                        retryable: true,
                    };
                    self.state = CascadeState::Auditing { report, required: true };
                } else {
                    self.state = CascadeState::Running { done: done + 1 };
                }
            },
            PhaseOutcome::Failed(error) => {
                let (status, completed) = match self.plan.consistency {
                    DeleteConsistencyLevel::BestEffort => {
                        let mut completed = Vec::new();
                        let mut i: usize = 0;
                        while i < done
                            invariant
                                i <= done < self.plan.phases@.len(),
                                completed@ == self.plan.phases@.take(i as int),
                            decreases done - i,
                        {
                            completed.push(self.plan.phases[i]);
                            i = i + 1;
                            assert(completed@ =~= self.plan.phases@.take(i as int));
                        }
                        (DeleteThreadStatus::Partial { failed_at: phase, error }, completed)
                    },
                    DeleteConsistencyLevel::StrongPerThread => {
                        (DeleteThreadStatus::Failed { at: phase, error }, Vec::new())
                    },
                };
                assert(completed@ =~= failure_completed(self.plan.consistency, self.plan.phases@, done as int));
                let report = DeleteThreadReport {
                    operation_id: self.operation_id,
                    thread_id: self.thread_id,
                    status,
                    completed_phases: completed,
                    consistency: self.plan.consistency,
                    retryable: true,
                };
                self.state = CascadeState::Auditing { report, required: false };
            },
            PhaseOutcome::Aborted(error) => {
                self.state = CascadeState::Finished { result: Err(StateError::Backend(error)) };
            },
        }
    }

    /// The report to persist as the thread's last deletion record.
    pub fn audit_report(&self) -> (r: &DeleteThreadReport)
        requires
            self.state is Auditing,
        ensures
            self.state matches CascadeState::Auditing { report, .. } && r == report,
    {
        match &self.state {
            CascadeState::Auditing { report, .. } => report,
            _ => {
                proof {
                    assert(false);
                }
                vstd::pervasive::unreached()
            },
        }
    }

    /// Records whether the audit record was persisted. A failure to persist the record of a
    /// complete deletion is the call's error; for an incomplete one it is ignored.
    pub fn record_audit(&mut self, persisted: Result<(), StateError>)
        requires
            old(self).wf(),
            old(self).state is Auditing,
        ensures
            final(self).wf(),
            final(self).operation_id == old(self).operation_id,
            final(self).thread_id == old(self).thread_id,
            final(self).plan == old(self).plan,
            final(self).outcomes == old(self).outcomes,
            old(self).state matches CascadeState::Auditing { report, required } && match persisted {
                Err(e) if required => final(self).state == (CascadeState::Finished { result: Err(e) }),
                _ => final(self).state == (CascadeState::Finished { result: Ok(report) }),
            },
    {
        let mut state = CascadeState::Running { done: 0 };
        std::mem::swap(&mut state, &mut self.state);
        match state {
            CascadeState::Auditing { report, required } => {
                match persisted {
                    Err(e) => {
                        if required {
                            self.state = CascadeState::Finished { result: Err(e) };
                        } else {
                            self.state = CascadeState::Finished { result: Ok(report) };
                        }
                    },
                    Ok(()) => {
                        self.state = CascadeState::Finished { result: Ok(report) };
                    },
                }
            },
            other => {
                self.state = other;
            },
        }
    }

    /// The deletion's result: its report, or the error that ended it.
    pub fn into_result(self) -> (r: Result<DeleteThreadReport, StateError>)
        requires
            self.state is Finished,
        ensures
            self.state matches CascadeState::Finished { result } && r == result,
    {
        match self.state {
            CascadeState::Finished { result } => result,
            _ => {
                proof {
                    assert(false);
                }
                vstd::pervasive::unreached()
            },
        }
    }
}


/// A deletion reported complete has run every planned phase, each successfully, and
/// lists exactly the planned phases as completed.
pub proof fn law_complete_means_every_phase_done(
    plan: Seq<DeleteThreadPhase>,
    c: DeleteConsistencyLevel,
    outcomes: Seq<OutcomeView>,
    completed: Seq<DeleteThreadPhase>,
)
    requires
        valid_outcomes(plan, outcomes),
        cascade_model(plan, c, outcomes) == CascadeModel::Reported(StatusView::Complete, completed),
    ensures
        completed == plan,
        outcomes.len() == plan.len(),
        forall|i: int| 0 <= i < outcomes.len() ==> #[trigger] outcomes[i] is Done,
{
}

/// A deletion in which every planned phase succeeded ends with the complete report that
/// lists every planned phase.
pub proof fn law_all_phases_done_is_complete(
    plan: Seq<DeleteThreadPhase>,
    c: DeleteConsistencyLevel,
    outcomes: Seq<OutcomeView>,
)
    requires
        outcomes.len() == plan.len(),
        forall|i: int| 0 <= i < outcomes.len() ==> #[trigger] outcomes[i] is Done,
    ensures
        valid_outcomes(plan, outcomes),
        cascade_model(plan, c, outcomes) == CascadeModel::Reported(StatusView::Complete, plan),
{
    if outcomes.len() > 0 {
        assert(outcomes[outcomes.len() - 1] is Done);
    }
}

/// For step-by-step backends, the completed phases of any report are a prefix of the plan,
/// and an incomplete report names the phase right after them.
pub proof fn law_best_effort_completed_is_prefix(
    plan: Seq<DeleteThreadPhase>,
    outcomes: Seq<OutcomeView>,
    s: StatusView,
    completed: Seq<DeleteThreadPhase>,
)
    requires
        valid_outcomes(plan, outcomes),
        cascade_model(plan, DeleteConsistencyLevel::BestEffort, outcomes) == CascadeModel::Reported(s, completed),
    ensures
        completed.len() <= plan.len(),
        completed == plan.take(completed.len() as int),
        s matches StatusView::Partial { failed_at, .. } ==> completed.len() < plan.len()
            && failed_at == plan[completed.len() as int],
        !(s is Failed),
{
    if s is Complete {
        assert(plan.take(plan.len() as int) =~= plan);
    }
}

/// Transactional backends delete all planned phases or none.
pub proof fn law_transactional_all_or_nothing(
    plan: Seq<DeleteThreadPhase>,
    outcomes: Seq<OutcomeView>,
    s: StatusView,
    completed: Seq<DeleteThreadPhase>,
)
    requires
        valid_outcomes(plan, outcomes),
        cascade_model(plan, DeleteConsistencyLevel::StrongPerThread, outcomes) == CascadeModel::Reported(s, completed),
    ensures
        (s is Complete && completed == plan) || (s is Failed && completed.len() == 0),
        !(s is Partial),
{
}

/// An incomplete report carries the error of the phase that failed, and that phase is the
/// last one run; every phase before it succeeded.
pub proof fn law_failure_reports_failing_phase(
    plan: Seq<DeleteThreadPhase>,
    c: DeleteConsistencyLevel,
    outcomes: Seq<OutcomeView>,
    s: StatusView,
    completed: Seq<DeleteThreadPhase>,
)
    requires
        valid_outcomes(plan, outcomes),
        cascade_model(plan, c, outcomes) == CascadeModel::Reported(s, completed),
        !(s is Complete),
    ensures
        outcomes.len() >= 1,
        outcomes.last() == OutcomeView::Failed(match s {
            StatusView::Partial { error, .. } => error,
            StatusView::Failed { error, .. } => error,
            StatusView::Complete => Seq::empty(),
        }),
        match s {
            StatusView::Partial { failed_at, .. } => failed_at == plan[outcomes.len() - 1],
            StatusView::Failed { at, .. } => at == plan[outcomes.len() - 1],
            StatusView::Complete => true,
        },
        forall|i: int| 0 <= i < outcomes.len() - 1 ==> #[trigger] outcomes[i] is Done,
{
}

/// The plans of all backends clear each domain exactly once, so a complete deletion
/// leaves no domain behind.
pub proof fn law_plans_cover_every_domain(p: DeleteThreadPhase)
    ensures
        canonical_order().contains(p),
        key_value_order().contains(p),
        object_store_order().contains(p),
        canonical_order().no_duplicates(),
        key_value_order().no_duplicates(),
        object_store_order().no_duplicates(),
        canonical_order().len() == 9,
        key_value_order().len() == 9,
        object_store_order().len() == 9,
{
    let a = canonical_order();
    let b = key_value_order();
    let c = object_store_order();
    match p {
        DeleteThreadPhase::Checkpoints => { assert(a[0] == p && b[1] == p && c[0] == p); },
        DeleteThreadPhase::Memory => { assert(a[1] == p && b[2] == p && c[1] == p); },
        DeleteThreadPhase::Tools => { assert(a[2] == p && b[3] == p && c[3] == p); },
        DeleteThreadPhase::Subagents => { assert(a[3] == p && b[4] == p && c[4] == p); },
        DeleteThreadPhase::Sandbox => { assert(a[4] == p && b[5] == p && c[5] == p); },
        DeleteThreadPhase::ManageTasks => { assert(a[5] == p && b[6] == p && c[6] == p); },
        DeleteThreadPhase::Artifacts => { assert(a[6] == p && b[7] == p && c[7] == p); },
        DeleteThreadPhase::Uploads => { assert(a[7] == p && b[8] == p && c[8] == p); },
        DeleteThreadPhase::ThreadMeta => { assert(a[8] == p && b[0] == p && c[2] == p); },
    }
}

/// `Ok` when the deletion completed, else the incomplete report as an error.
pub fn cascade_completion(report: DeleteThreadReport) -> (r: Result<(), StateError>)
    ensures
        report.status@ is Complete ==> r is Ok,
        !(report.status@ is Complete) ==> r == Err::<(), StateError>(StateError::LifecycleIncomplete(Box::new(report))),
{
    if report.success() {
        Ok(())
    } else {
        Err(StateError::LifecycleIncomplete(Box::new(report)))
    }
}

} // verus!
