use harness_state::errors::StateError;
use harness_state::session::{
    CreateSessionRequest, ForkSessionRequest, SessionContext, SessionCore, SessionLifecycleState,
    SessionPolicy, UtcTimestamp,
};
use serde_json::Value;

fn at(secs: i64) -> UtcTimestamp {
    UtcTimestamp { secs, nanos: 0 }
}

#[test]
fn session_core_create_attach_and_close_root_session() {
    let mut core = SessionCore::new();
    let mut context = SessionContext::new();
    context.insert("channel", Value::from("manage"));

    let mut policy = SessionPolicy::new();
    policy.insert("mode", Value::from("safe"));

    let created = core
        .create_session(CreateSessionRequest {
            attached_thread_id: None,
            context: context.clone(),
            policy: policy.clone(),
        })
        .unwrap();

    assert_eq!(created.parent_session_id, None);
    assert_eq!(created.context, context);
    assert_eq!(created.policy, policy);
    assert_eq!(created.local_policy, policy);

    let attached = core.attach_session(created.session_id).unwrap();
    assert_eq!(attached.session_id, created.session_id);

    let closed = core.close_session(created.session_id).unwrap();
    assert_eq!(closed.lifecycle_state, SessionLifecycleState::Closed);
    assert!(closed.closed_at.is_some());

    let attach_error = core.attach_session(created.session_id).unwrap_err();
    assert!(matches!(attach_error, StateError::Conflict(_)));
}

#[test]
fn session_core_rejects_invalid_parent_reference() {
    let mut core = SessionCore::new();
    let error = core
        .fork_session(ForkSessionRequest {
            parent_session_id: uuid::Uuid::new_v4().as_u128(),
            attached_thread_id: None,
            local_policy: SessionPolicy::default(),
        })
        .unwrap_err();

    assert!(matches!(error, StateError::NotFound(_)));
}

#[test]
fn session_core_fork_inherits_parent_context_and_overrides_policy() {
    let mut core = SessionCore::new();
    let thread_id = uuid::Uuid::new_v4().as_u128();

    let mut context = SessionContext::new();
    context.insert("channel", Value::from("gateway"));
    context.insert("user", Value::from("murphy"));

    let mut parent_policy = SessionPolicy::new();
    parent_policy.insert("mode", Value::from("safe"));
    parent_policy.insert("max_iterations", Value::from(12));

    let parent = core
        .create_session(CreateSessionRequest {
            attached_thread_id: Some(thread_id),
            context: context.clone(),
            policy: parent_policy,
        })
        .unwrap();

    let mut local_policy = SessionPolicy::new();
    local_policy.insert("max_iterations", Value::from(3));
    local_policy.insert("sandbox", Value::from("restricted"));

    let child = core
        .fork_session(ForkSessionRequest {
            parent_session_id: parent.session_id,
            attached_thread_id: None,
            local_policy: local_policy.clone(),
        })
        .unwrap();

    assert_eq!(child.parent_session_id, Some(parent.session_id));
    assert_eq!(child.attached_thread_id, Some(thread_id));
    assert_eq!(child.context, context);
    assert_eq!(child.local_policy, local_policy);
    assert_eq!(child.policy.get("mode"), Some(&Value::from("safe")));
    assert_eq!(child.policy.get("max_iterations"), Some(&Value::from(3)));
    assert_eq!(child.policy.get("sandbox"), Some(&Value::from("restricted")));

    let updated_parent = core.session(parent.session_id).unwrap();
    assert_eq!(updated_parent.child_session_ids, vec![child.session_id]);
}

#[test]
fn closing_twice_keeps_the_first_close() {
    let mut core = SessionCore::new();
    let s = core.create_session_with(7, at(100), CreateSessionRequest::default()).unwrap();
    assert_eq!(s.created_at, at(100));
    let first = core.close_session_with(7, at(200)).unwrap();
    assert_eq!(first.closed_at, Some(at(200)));
    assert_eq!(first.updated_at, at(200));
    let second = core.close_session_with(7, at(300)).unwrap();
    assert_eq!(second, first);
    assert_eq!(core.session(7).unwrap(), first);
}

#[test]
fn session_errors_name_the_session() {
    let mut core = SessionCore::new();
    match core.session(1) {
        Err(StateError::NotFound(m)) => {
            assert_eq!(m, "session 00000000-0000-0000-0000-000000000001 was not found")
        },
        other => panic!("unexpected: {other:?}"),
    }
    match core.close_session(2) {
        Err(StateError::NotFound(m)) => {
            assert_eq!(m, "session 00000000-0000-0000-0000-000000000002 was not found")
        },
        other => panic!("unexpected: {other:?}"),
    }
    core.create_session_with(3, at(1), CreateSessionRequest::default()).unwrap();
    core.close_session_with(3, at(2)).unwrap();
    match core.attach_session(3) {
        Err(StateError::Conflict(m)) => assert_eq!(
            m,
            "session 00000000-0000-0000-0000-000000000003 is closed and cannot be attached"
        ),
        other => panic!("unexpected: {other:?}"),
    }
    let fork = ForkSessionRequest { parent_session_id: 3, attached_thread_id: None, local_policy: SessionPolicy::new() };
    match core.fork_session_with(4, at(3), fork) {
        Err(StateError::Conflict(m)) => assert_eq!(
            m,
            "parent session 00000000-0000-0000-0000-000000000003 is closed and cannot be forked"
        ),
        other => panic!("unexpected: {other:?}"),
    }
    let fork = ForkSessionRequest { parent_session_id: 9, attached_thread_id: None, local_policy: SessionPolicy::new() };
    match core.fork_session_with(4, at(3), fork) {
        Err(StateError::NotFound(m)) => {
            assert_eq!(m, "parent session 00000000-0000-0000-0000-000000000009 was not found")
        },
        other => panic!("unexpected: {other:?}"),
    }
    assert!(core.session(4).is_err());
}

#[test]
fn fork_with_explicit_thread_and_fixed_times() {
    let mut core = SessionCore::new();
    core.create_session_with(1, at(10), CreateSessionRequest { attached_thread_id: Some(50), ..CreateSessionRequest::default() })
        .unwrap();
    let fork = ForkSessionRequest { parent_session_id: 1, attached_thread_id: Some(60), local_policy: SessionPolicy::new() };
    let child = core.fork_session_with(2, at(20), fork).unwrap();
    assert_eq!(child.session_id, 2);
    assert_eq!(child.attached_thread_id, Some(60));
    assert_eq!(child.created_at, at(20));
    assert_eq!(child.lifecycle_state, SessionLifecycleState::Active);
    let parent = core.session(1).unwrap();
    assert_eq!(parent.child_session_ids, vec![2]);
    assert_eq!(parent.updated_at, at(20));
    assert_eq!(parent.created_at, at(10));
}

#[test]
fn policy_merge_prefers_the_override() {
    let mut base = SessionPolicy::new();
    base.insert("a", Value::from(1));
    base.insert("b", Value::from(2));
    let mut over = SessionPolicy::new();
    over.insert("b", Value::from(3));
    over.insert("c", Value::from(4));
    let merged = base.merged_with(&over);
    assert_eq!(merged.get("a"), Some(&Value::from(1)));
    assert_eq!(merged.get("b"), Some(&Value::from(3)));
    assert_eq!(merged.get("c"), Some(&Value::from(4)));
    assert_eq!(merged.get("d"), None);
    assert_eq!(base.get("b"), Some(&Value::from(2)));
}
