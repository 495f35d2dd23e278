use harness_state::cascade::{cascade_completion, CascadePlan, CascadeStep, DeleteCascade, PhaseOutcome};
use harness_state::delete_report::{DeleteConsistencyLevel, DeleteThreadPhase, DeleteThreadStatus};
use harness_state::errors::{MemorySystemError, StateError, StateErrorCategory, ToolError};

fn run(mut c: DeleteCascade, fail_at: Option<(DeleteThreadPhase, PhaseOutcome)>, audit: Result<(), StateError>) -> (Result<harness_state::delete_report::DeleteThreadReport, StateError>, Vec<DeleteThreadPhase>) {
    let mut ran = Vec::new();
    let mut fail_at = fail_at;
    let mut audit = Some(audit);
    loop {
        match c.next_step() {
            CascadeStep::RunPhase(p) => {
                ran.push(p);
                let outcome = match &fail_at {
                    Some((q, _)) if *q == p => fail_at.take().unwrap().1,
                    _ => PhaseOutcome::Done,
                };
                c.record_phase(outcome);
            },
            CascadeStep::PersistAudit => {
                c.record_audit(audit.take().unwrap());
            },
            CascadeStep::Finished => return (c.into_result(), ran),
        }
    }
}

#[test]
fn complete_deletion_runs_every_phase_in_order() {
    let c = DeleteCascade::start_with_operation(1, 2, CascadePlan::local_fs());
    let (r, ran) = run(c, None, Ok(()));
    let report = r.unwrap();
    assert_eq!(report.status, DeleteThreadStatus::Complete);
    assert_eq!(report.completed_phases, ran);
    assert_eq!(ran.len(), 9);
    assert_eq!(ran[0], DeleteThreadPhase::Checkpoints);
    assert_eq!(ran[8], DeleteThreadPhase::ThreadMeta);
    assert_eq!(report.operation_id, 1);
    assert_eq!(report.thread_id, 2);
    assert!(report.retryable);
    assert_eq!(report.summary(), "complete");
    assert!(cascade_completion(report).is_ok());
}

#[test]
fn best_effort_failure_reports_the_completed_prefix() {
    let c = DeleteCascade::start_with_operation(1, 2, CascadePlan::key_value());
    let (r, ran) = run(c, Some((DeleteThreadPhase::Tools, PhaseOutcome::Failed("boom".to_string()))), Err(StateError::Backend("audit".to_string())));
    let report = r.unwrap();
    assert_eq!(
        report.status,
        DeleteThreadStatus::Partial { failed_at: DeleteThreadPhase::Tools, error: "boom".to_string() }
    );
    assert_eq!(
        report.completed_phases,
        vec![DeleteThreadPhase::ThreadMeta, DeleteThreadPhase::Checkpoints, DeleteThreadPhase::Memory]
    );
    assert_eq!(ran.len(), 4);
    assert_eq!(report.consistency, DeleteConsistencyLevel::BestEffort);
    assert_eq!(report.summary(), "partial: failed_at=Tools, error=boom");
    match cascade_completion(report) {
        Err(StateError::LifecycleIncomplete(r)) => assert!(!r.success()),
        other => panic!("unexpected: {other:?}"),
    }
}

#[test]
fn transactional_failure_completes_nothing() {
    let c = DeleteCascade::start_with_operation(1, 2, CascadePlan::transactional());
    let (r, _) = run(c, Some((DeleteThreadPhase::Artifacts, PhaseOutcome::Failed("rollback".to_string()))), Ok(()));
    let report = r.unwrap();
    assert_eq!(report.status, DeleteThreadStatus::Failed { at: DeleteThreadPhase::Artifacts, error: "rollback".to_string() });
    assert!(report.completed_phases.is_empty());
    assert_eq!(report.summary(), "failed: at=Artifacts, error=rollback");
}

#[test]
fn aborted_phase_ends_with_backend_error() {
    let c = DeleteCascade::start_with_operation(1, 2, CascadePlan::object_store());
    let (r, ran) = run(c, Some((DeleteThreadPhase::Memory, PhaseOutcome::Aborted("io".to_string()))), Ok(()));
    match r {
        Err(StateError::Backend(m)) => assert_eq!(m, "io"),
        other => panic!("unexpected: {other:?}"),
    }
    assert_eq!(ran, vec![DeleteThreadPhase::Checkpoints, DeleteThreadPhase::Memory]);
}

#[test]
fn failed_audit_of_a_complete_deletion_is_the_error() {
    let c = DeleteCascade::start_with_operation(1, 2, CascadePlan::local_fs());
    let (r, _) = run(c, None, Err(StateError::Backend("disk full".to_string())));
    match r {
        Err(StateError::Backend(m)) => assert_eq!(m, "disk full"),
        other => panic!("unexpected: {other:?}"),
    }
}

#[test]
fn random_operation_ids_are_version_four() {
    let c = DeleteCascade::start(5, CascadePlan::local_fs());
    let u = uuid::Uuid::from_u128(c.operation_id);
    assert_eq!(u.get_version_num(), 4);
    assert_eq!(c.thread_id, 5);
}

#[test]
fn state_error_texts_and_categories() {
    assert_eq!(StateError::Config("x".to_string()).message(), "config: x");
    assert_eq!(StateError::NotFound("y".to_string()).category(), StateErrorCategory::Runtime);
    assert_eq!(StateError::Backend("z".to_string()).category(), StateErrorCategory::ExternalConnection);
    assert_eq!(StateError::Initialization("i".to_string()).category(), StateErrorCategory::Initialization);
    let e = MemorySystemError::state_operation("load memory", StateError::Conflict("c".to_string()));
    assert_eq!(e.message(), "load memory failed: conflict: c");
    assert_eq!(e.category(), StateErrorCategory::Runtime);
    let e = MemorySystemError::runtime("merge", "llm down".to_string());
    assert_eq!(e.message(), "merge failed: llm down");
    assert_eq!(ToolError::Timeout.message(), "timeout");
    assert_eq!(ToolError::Validation("v".to_string()).message(), "validation: v");
}
