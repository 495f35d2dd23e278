use harness_state::errors::{StateError, ToolError};
use harness_state::records::{delete_thread_meta, get_thread, remove_thread, upsert_thread, SkillCatalog, SkillRecord, SkillStore, ThreadMeta};
use harness_state::session::UtcTimestamp;
use harness_state::tools::{check_tool_lists, is_plain_schema, validate_instance_checked, ClarificationRequest, ToolRegistry};
use serde_json::Value;

fn obj(pairs: Vec<(&str, Value)>) -> Value {
    let mut m = serde_json::Map::new();
    for (k, v) in pairs {
        m.insert(k.to_string(), v);
    }
    Value::Object(m)
}

fn strings(items: &[&str]) -> Vec<String> {
    items.iter().map(|s| s.to_string()).collect()
}

#[test]
fn test_ask_clarification_basic() {
    let args = obj(vec![
        ("question", Value::from("What is your preferred approach?")),
        ("clarification_type", Value::from("missing_info")),
    ]);
    let result = ClarificationRequest::from_args(&args).pending_response();
    assert_eq!(result["type"], "clarification_request");
    assert_eq!(result["question"], "What is your preferred approach?");
    assert_eq!(result["status"], "pending_user_response");
}

#[test]
fn test_ask_clarification_with_options() {
    let args = obj(vec![
        ("question", Value::from("Choose a deployment strategy")),
        ("clarification_type", Value::from("approach_choice")),
        ("options", Value::from(vec!["Blue-Green", "Canary", "Rolling"])),
    ]);
    let result = ClarificationRequest::from_args(&args).pending_response();
    assert_eq!(result["options"].as_array().unwrap().len(), 3);
}

#[test]
fn test_ask_clarification_minimal() {
    let args = obj(vec![("question", Value::from("Help?"))]);
    let result = ClarificationRequest::from_args(&args).pending_response();
    assert_eq!(result["clarification_type"], "missing_info");
    assert!(result["context"].is_null());
    assert_eq!(result["options"].as_array().unwrap().len(), 0);
}

#[test]
fn clarification_defaults_and_non_string_options() {
    let r = ClarificationRequest::from_args(&Value::Null);
    assert_eq!(r.question, "Please clarify");
    assert_eq!(r.clarification_type, "missing_info");
    assert_eq!(r.context, None);
    assert!(r.options.is_empty());
    let args = obj(vec![
        ("question", Value::from(3)),
        ("context", Value::from("why")),
        ("options", Value::Array(vec![Value::from("a"), Value::from(1), Value::from("b")])),
    ]);
    let r = ClarificationRequest::from_args(&args);
    assert_eq!(r.question, "Please clarify");
    assert_eq!(r.context, Some("why".to_string()));
    assert_eq!(r.options, vec!["a", "b"]);
    assert_eq!(r.pending_response()["context"], "why");
}

#[test]
fn registry_resolves_registered_tools() {
    let mut registry: ToolRegistry<u32> = ToolRegistry::new();
    registry.register("echo".to_string(), 1);
    registry.register("sleep".to_string(), 2);
    registry.register("echo".to_string(), 3);
    assert_eq!(*registry.get("echo").unwrap(), 3);
    assert_eq!(registry.registered_names(), vec!["echo", "sleep"]);
    assert_eq!(registry.get("missing").unwrap_err(), ToolError::Execution("unknown tool missing".to_string()));
    assert!(registry.ensure_consistent_with_manifest_list(&strings(&["sleep", "echo"])).is_ok());
    assert_eq!(
        registry.ensure_consistent_with_manifest_list(&strings(&["echo"])).unwrap_err(),
        ToolError::Execution("registry has tool sleep not listed in governance tool manifests".to_string())
    );
    assert_eq!(
        registry.ensure_consistent_with_manifest_list(&strings(&["echo", "sleep", "fetch"])).unwrap_err(),
        ToolError::Execution("tools.yaml lists tool fetch but it is not registered in ToolRegistry".to_string())
    );
}

#[test]
fn tool_lists_report_registered_names_first() {
    assert_eq!(
        check_tool_lists(&strings(&["a", "b"]), &strings(&["c"])).unwrap_err(),
        ToolError::Execution("registry has tool a not listed in governance tool manifests".to_string())
    );
    assert!(check_tool_lists(&strings(&[]), &strings(&[])).is_ok());
}

#[test]
fn schema_validation_reports_violations() {
    let schema = obj(vec![
        ("type", Value::from("object")),
        ("required", Value::from(vec!["question"])),
    ]);
    let ok = obj(vec![("question", Value::from("q"))]);
    assert_eq!(validate_instance_checked(&schema, &ok), Some(Ok(())));
    match validate_instance_checked(&schema, &obj(vec![])) {
        Some(Err(ToolError::Validation(m))) => assert!(m.contains("question")),
        other => panic!("unexpected: {other:?}"),
    }
    let bad_schema = obj(vec![("type", Value::from(12))]);
    assert_eq!(validate_instance_checked(&bad_schema, &ok), None);
}

#[test]
fn schemas_with_references_or_deep_nesting_are_refused_before_validation() {
    let ok = obj(vec![("question", Value::from("q"))]);
    // A reference to the schema itself would be resolved again without end.
    let self_ref = obj(vec![("$ref", Value::from("#"))]);
    assert_eq!(validate_instance_checked(&self_ref, &ok), None);
    assert!(!is_plain_schema(&self_ref));
    let nested_ref = obj(vec![
        ("type", Value::from("object")),
        ("properties", obj(vec![("question", obj(vec![("$ref", Value::from("#/definitions/q"))]))])),
    ]);
    assert!(!is_plain_schema(&nested_ref));
    let mut deep = obj(vec![("type", Value::from("string"))]);
    for _ in 0..40 {
        deep = obj(vec![("not", deep)]);
    }
    assert!(!is_plain_schema(&deep));
    assert_eq!(validate_instance_checked(&deep, &ok), None);
    let plain = obj(vec![("type", Value::from("object")), ("required", Value::from(vec!["question"]))]);
    assert!(is_plain_schema(&plain));
}

#[test]
fn skills_are_replaced_by_name() {
    let mut catalog = SkillCatalog::new(vec![]);
    catalog.put_skill(&SkillRecord { name: "search".to_string(), enabled: true }).unwrap();
    catalog.put_skill(&SkillRecord { name: "code".to_string(), enabled: true }).unwrap();
    catalog.put_skill(&SkillRecord { name: "search".to_string(), enabled: false }).unwrap();
    let all = catalog.list_skills().unwrap();
    assert_eq!(all.len(), 2);
    assert_eq!(all[0], SkillRecord { name: "search".to_string(), enabled: false });
    assert_eq!(catalog.get_skill("code").unwrap(), Some(SkillRecord { name: "code".to_string(), enabled: true }));
    assert_eq!(catalog.get_skill("none").unwrap(), None);
}

#[test]
fn thread_records_upsert_get_and_delete() {
    let t = |secs| UtcTimestamp { secs, nanos: 0 };
    let mut items = Vec::new();
    upsert_thread(&mut items, &ThreadMeta { thread_id: 1, created_at: t(1), updated_at: t(1), label: None });
    upsert_thread(&mut items, &ThreadMeta { thread_id: 2, created_at: t(2), updated_at: t(2), label: None });
    upsert_thread(&mut items, &ThreadMeta { thread_id: 1, created_at: t(1), updated_at: t(5), label: Some("x".to_string()) });
    assert_eq!(items.len(), 2);
    assert_eq!(get_thread(&items, 1).unwrap().label, Some("x".to_string()));
    match get_thread(&items, 3) {
        Err(StateError::NotFound(m)) => assert_eq!(m, "00000000-0000-0000-0000-000000000003"),
        other => panic!("unexpected: {other:?}"),
    }
    assert!(delete_thread_meta(&mut items, 1).is_ok());
    assert_eq!(items.len(), 1);
    assert!(matches!(delete_thread_meta(&mut items, 1), Err(StateError::NotFound(_))));
    assert!(!remove_thread(&mut items, 9));
    assert!(remove_thread(&mut items, 2));
    assert!(items.is_empty());
}
