use harness_state::s3_layout::{index_without, uuid_list_from_json, IdListError};
use harness_state::cascade::CascadePlan;
use harness_state::delete_report::{DeleteConsistencyLevel, DeleteThreadPhase, DeleteVerifyReport, ResidualCounts};
use harness_state::errors::StateError;
use harness_state::redis_keys::{
    artifact_uri, checkpoint_latest_key, checkpoint_step_key, checkpoint_steps_pattern, global_key,
    manage_task_key, steps_from_keys, thread_index_key, thread_item_key, thread_meta_key, thread_value_key,
};
use harness_state::registry::{MemoryBackends, StorageBackendKind};
use harness_state::s3_layout::{steps_from_locations, upload_names_from_locations, S3Layout};
use harness_state::storage_config::{
    capabilities_all_supported, memory_store_location, plan_runtime_storage, sqlite_connection_url,
    LocalFsConfig, RuntimeStoragePlan, RuntimeStorageSettings, StorageBuildError, StorageConfig, StorageMode,
};

const TID: u128 = 0x67e5_5044_10b1_426f_9247_bb68_0e5f_e0c8;
const TID_TEXT: &str = "67e55044-10b1-426f-9247-bb680e5fe0c8";

fn settings(mode: &str) -> RuntimeStorageSettings {
    RuntimeStorageSettings {
        mode: mode.to_string(),
        local_fs_root: "/var/harness".to_string(),
        sqlite_url: None,
        manage_sqlite_url: None,
        postgres_url: None,
        manage_postgres_url: None,
        redis_url: None,
        s3_bucket: None,
        s3_prefix: String::new(),
    }
}

fn missing(r: Result<RuntimeStoragePlan, StorageBuildError>) -> String {
    match r {
        Err(StorageBuildError::MissingConfig(m)) => m,
        other => panic!("unexpected: {other:?}"),
    }
}

#[test]
fn resolve_memory_store_reports_missing_backend() {
    let registry = MemoryBackends::new(StorageBackendKind::LocalFs, "local-store".to_string());
    match registry.resolve_memory_store(StorageBackendKind::Sqlite) {
        Err(StateError::Backend(message)) => assert!(message.contains("Sqlite")),
        Err(other) => panic!("unexpected error: {other:?}"),
        Ok(_) => panic!("unregistered backend should fail"),
    }
}

#[test]
fn registering_a_backend_makes_it_resolvable() {
    let mut registry = MemoryBackends::new(StorageBackendKind::LocalFs, "local".to_string());
    registry.register_memory_backend(StorageBackendKind::Sqlite, "sqlite".to_string());
    assert_eq!(registry.resolve_memory_store(StorageBackendKind::Sqlite).unwrap(), "sqlite");
    assert_eq!(registry.resolve_default_memory_store().unwrap(), "local");
    assert!(registry.set_default_memory_backend(StorageBackendKind::Redis).is_err());
    assert_eq!(registry.default_memory_backend(), StorageBackendKind::LocalFs);
    registry.set_default_memory_backend(StorageBackendKind::Sqlite).unwrap();
    assert_eq!(registry.default_memory(), "sqlite");
    assert_eq!(registry.select_memory_store(None).unwrap(), "sqlite");
    match registry.select_memory_store(Some(StorageBackendKind::S3)) {
        Err(StateError::Backend(m)) => assert_eq!(m, "memory backend S3 is not registered"),
        other => panic!("unexpected: {other:?}"),
    }
}

#[test]
fn backend_kind_from_mode() {
    assert_eq!(StorageBackendKind::from_mode("sqlite"), StorageBackendKind::Sqlite);
    assert_eq!(StorageBackendKind::from_mode("postgres"), StorageBackendKind::Postgres);
    assert_eq!(StorageBackendKind::from_mode("redis"), StorageBackendKind::Redis);
    assert_eq!(StorageBackendKind::from_mode("s3"), StorageBackendKind::S3);
    assert_eq!(StorageBackendKind::from_mode("local_fs"), StorageBackendKind::LocalFs);
    assert_eq!(StorageBackendKind::from_mode("anything"), StorageBackendKind::LocalFs);
}

#[test]
fn runtime_storage_reports_missing_settings() {
    assert_eq!(missing(plan_runtime_storage(&settings("sqlite"))), "sqlite_url (storage or manage) is required");
    assert_eq!(missing(plan_runtime_storage(&settings("postgres"))), "postgres_url is required");
    assert_eq!(missing(plan_runtime_storage(&settings("redis"))), "redis_url is required");
    assert_eq!(missing(plan_runtime_storage(&settings("s3"))), "s3_bucket is required");
    assert_eq!(
        missing(plan_runtime_storage(&settings("mongo"))),
        "unknown storage.mode: mongo (expected local_fs|sqlite|postgres|redis|s3)"
    );
}

#[test]
fn runtime_storage_selects_the_configured_backend() {
    match plan_runtime_storage(&settings("local_fs")).unwrap() {
        RuntimeStoragePlan::LocalFs { root } => assert_eq!(root, "/var/harness"),
        other => panic!("unexpected: {other:?}"),
    }
    let mut s = settings("postgres");
    s.manage_postgres_url = Some("postgres://manage".to_string());
    match plan_runtime_storage(&s).unwrap() {
        RuntimeStoragePlan::Postgres { url } => assert_eq!(url, "postgres://manage"),
        other => panic!("unexpected: {other:?}"),
    }
    s.postgres_url = Some("postgres://storage".to_string());
    let plan = plan_runtime_storage(&s).unwrap();
    match &plan {
        RuntimeStoragePlan::Postgres { url } => assert_eq!(url, "postgres://storage"),
        other => panic!("unexpected: {other:?}"),
    }
    assert_eq!(plan.active_mode(), "postgres");
    assert_eq!(plan.backend(), StorageBackendKind::Postgres);
    let cascade = plan.cascade_plan();
    assert_eq!(cascade.consistency, DeleteConsistencyLevel::StrongPerThread);
    assert_eq!(cascade.phases.len(), 9);

    let mut s = settings("s3");
    s.s3_bucket = Some("bucket".to_string());
    s.s3_prefix = "pfx".to_string();
    let plan = plan_runtime_storage(&s).unwrap();
    match &plan {
        RuntimeStoragePlan::S3 { bucket, prefix } => {
            assert_eq!(bucket, "bucket");
            assert_eq!(prefix, "pfx");
        },
        other => panic!("unexpected: {other:?}"),
    }
    assert_eq!(plan.active_mode(), "s3");
    assert_eq!(plan.cascade_plan().phases[2], DeleteThreadPhase::ThreadMeta);

    let mut s = settings("redis");
    s.redis_url = Some("redis://localhost".to_string());
    let plan = plan_runtime_storage(&s).unwrap();
    assert_eq!(plan.active_mode(), "redis");
    assert_eq!(plan.cascade_plan().phases[0], DeleteThreadPhase::ThreadMeta);
}

#[test]
fn sqlite_url_is_normalized() {
    let mut s = settings("sqlite");
    s.sqlite_url = Some("/tmp/state.db".to_string());
    assert_eq!(sqlite_connection_url(&s), Some("sqlite://tmp/state.db".to_string()));
    s.sqlite_url = Some("sqlite::memory:".to_string());
    assert_eq!(sqlite_connection_url(&s), Some("sqlite::memory:".to_string()));
    s.sqlite_url = None;
    s.manage_sqlite_url = Some("///data/db".to_string());
    assert_eq!(sqlite_connection_url(&s), Some("sqlite://data/db".to_string()));
    match plan_runtime_storage(&s).unwrap() {
        RuntimeStoragePlan::Sqlite { url } => assert_eq!(url, "sqlite://data/db"),
        other => panic!("unexpected: {other:?}"),
    }
    s.manage_sqlite_url = None;
    assert_eq!(sqlite_connection_url(&s), None);
}

#[test]
fn memory_store_lives_under_the_local_root() {
    let config = StorageConfig::default();
    assert_eq!(config.mode, StorageMode::LocalFs);
    let p = memory_store_location(&config, "/work", "memory/store.json").unwrap();
    assert_eq!(p.base, "/work");
    assert_eq!(p.components, vec![".deer-flow/local-fs".to_string(), "memory/store.json".to_string()]);
    let config = StorageConfig { mode: StorageMode::LocalFs, local_fs: Some(LocalFsConfig { root: "custom".to_string() }), sqlite: None };
    let p = memory_store_location(&config, "/work", "m.json").unwrap();
    assert_eq!(p.components, vec!["custom".to_string(), "m.json".to_string()]);
    let config = StorageConfig { mode: StorageMode::LocalFs, local_fs: None, sqlite: None };
    let p = memory_store_location(&config, "/work", "m.json").unwrap();
    assert_eq!(p.components[0], ".deer-flow/local-fs");
    let config = StorageConfig { mode: StorageMode::Sqlite, local_fs: None, sqlite: None };
    match memory_store_location(&config, "/work", "m.json") {
        Err(StateError::Config(m)) => assert_eq!(m, "Storage mode Sqlite not implemented for memory store"),
        other => panic!("unexpected: {other:?}"),
    }
}

#[test]
fn capabilities_are_all_supported() {
    let caps = capabilities_all_supported();
    assert_eq!(caps.len(), 13);
    for key in ["manage_tasks", "memory", "skills", "thread_lifecycle", "mcp_config"] {
        assert_eq!(caps.get(key), Some(&serde_json::Value::Bool(true)));
    }
    assert_eq!(caps.get("unknown"), None);
}

#[test]
fn redis_keys_follow_the_schema() {
    assert_eq!(thread_meta_key(TID), format!("oh:rt:v1:tmeta:{TID_TEXT}"));
    assert_eq!(checkpoint_latest_key(TID, 1), format!("oh:rt:v1:cp:latest:{TID_TEXT}:00000000-0000-0000-0000-000000000001"));
    assert_eq!(checkpoint_step_key(TID, 1, 42), format!("oh:rt:v1:cp:step:{TID_TEXT}:00000000-0000-0000-0000-000000000001:42"));
    assert_eq!(checkpoint_steps_pattern(TID, 1), format!("oh:rt:v1:cp:step:{TID_TEXT}:00000000-0000-0000-0000-000000000001:*"));
    assert_eq!(thread_value_key("mem", TID), format!("oh:rt:v1:mem:{TID_TEXT}"));
    assert_eq!(thread_item_key("up", TID, "a.txt"), format!("oh:rt:v1:up:{TID_TEXT}:a.txt"));
    assert_eq!(thread_index_key("up", "files", TID), format!("oh:rt:v1:up:files:{TID_TEXT}"));
    assert_eq!(manage_task_key("task", "task-1"), "oh:rt:v1:mt:task:task-1");
    assert_eq!(global_key("skills", None), "oh:rt:v1:skills");
    assert_eq!(global_key("app", Some("mcp")), "oh:rt:v1:app:mcp");
    assert_eq!(artifact_uri(TID, "out.bin"), format!("redis:artifact:{TID_TEXT}/out.bin"));
}

#[test]
fn redis_step_keys_list_back_sorted_without_repeats() {
    let keys = vec![
        checkpoint_step_key(TID, 1, 10),
        checkpoint_step_key(TID, 1, 2),
        checkpoint_step_key(TID, 1, 10),
        "oh:rt:v1:cp:step:x:y:notanumber".to_string(),
    ];
    assert_eq!(steps_from_keys(&keys), vec![2, 10]);
}

#[test]
fn s3_layout_follows_the_schema() {
    let layout = S3Layout::new("/bucket/pfx/");
    assert_eq!(layout.prefix, "bucket/pfx");
    assert_eq!(layout.runtime_key("skills.json"), "bucket/pfx/runtime/v1/skills.json");
    assert_eq!(layout.id_json_key("thread_meta", TID), format!("bucket/pfx/runtime/v1/thread_meta/{TID_TEXT}.json"));
    assert_eq!(layout.thread_dir_key("uploads", TID), format!("bucket/pfx/runtime/v1/uploads/{TID_TEXT}/"));
    assert_eq!(layout.thread_item_key("artifacts", TID, "a.bin"), format!("bucket/pfx/runtime/v1/artifacts/{TID_TEXT}/a.bin"));
    assert_eq!(
        layout.checkpoint_step_key(TID, 1, 5),
        format!("bucket/pfx/runtime/v1/checkpoints/step/{TID_TEXT}/00000000-0000-0000-0000-000000000001/5.json")
    );
    assert_eq!(layout.audit_key(TID), format!("bucket/pfx/runtime/v1/ops/{TID_TEXT}/last.json"));
    assert_eq!(layout.manage_key("tasks", "task-1"), "bucket/pfx/manage_tasks/v1/tasks/task-1.json");
    assert_eq!(layout.artifact_uri(TID, "a.bin"), format!("s3:bucket/pfx/{TID_TEXT}/a.bin"));
    assert_eq!(S3Layout::new("///").prefix, "");
}

#[test]
fn s3_listings_yield_steps_and_upload_names() {
    let layout = S3Layout::new("p");
    let locations = vec![
        layout.checkpoint_step_key(TID, 1, 9),
        layout.checkpoint_step_key(TID, 1, 3),
        format!("p/runtime/v1/checkpoints/step/{TID_TEXT}/x/latest.json"),
    ];
    assert_eq!(steps_from_locations(&locations), vec![3, 9]);
    let uploads = vec![
        format!("p/runtime/v1/uploads/{TID_TEXT}/b.txt"),
        format!("p/runtime/v1/uploads/{TID_TEXT}/a.txt"),
        format!("p/runtime/v1/uploads/{TID_TEXT}/dir/c.txt"),
        format!("p/runtime/v1/uploads/{TID_TEXT}/"),
        "p/runtime/v1/uploads/other/z.txt".to_string(),
    ];
    assert_eq!(upload_names_from_locations(&uploads, TID), vec!["a.txt", "b.txt", "dir"]);
}

#[test]
fn sql_row_counts_make_the_residual_report() {
    let counts = ResidualCounts {
        checkpoints_latest: 0,
        checkpoints_step: 2,
        memory_facts: 0,
        tool_records: 1,
        subagent_tasks: 0,
        sandbox_executions: 0,
        manage_tasks: 0,
        artifacts: 0,
        thread_uploads: 0,
        thread_meta: 0,
    };
    let report = DeleteVerifyReport::from_row_counts(TID, &counts);
    assert_eq!(report.thread_id, TID);
    assert_eq!(report.get(DeleteThreadPhase::Checkpoints), Some(true));
    assert_eq!(report.get(DeleteThreadPhase::Memory), Some(false));
    assert_eq!(report.get(DeleteThreadPhase::Tools), Some(true));
    assert_eq!(report.get(DeleteThreadPhase::ThreadMeta), Some(false));
    assert!(report.any_residual());
}

#[test]
fn probes_make_the_residual_report() {
    let probes = vec![
        (DeleteThreadPhase::Memory, true),
        (DeleteThreadPhase::Uploads, false),
        (DeleteThreadPhase::Memory, false),
    ];
    let report = DeleteVerifyReport::from_probes(TID, &probes);
    assert_eq!(report.get(DeleteThreadPhase::Memory), Some(false));
    assert_eq!(report.get(DeleteThreadPhase::Uploads), Some(false));
    assert_eq!(report.get(DeleteThreadPhase::Tools), None);
    assert!(!report.any_residual());
}

#[test]
fn cascade_plans_cover_every_domain() {
    for plan in [CascadePlan::local_fs(), CascadePlan::transactional(), CascadePlan::key_value(), CascadePlan::object_store()] {
        assert_eq!(plan.phases.len(), 9);
        for p in [
            DeleteThreadPhase::Checkpoints,
            DeleteThreadPhase::Memory,
            DeleteThreadPhase::Tools,
            DeleteThreadPhase::Subagents,
            DeleteThreadPhase::Sandbox,
            DeleteThreadPhase::ManageTasks,
            DeleteThreadPhase::Artifacts,
            DeleteThreadPhase::Uploads,
            DeleteThreadPhase::ThreadMeta,
        ] {
            assert!(plan.phases.contains(&p));
        }
    }
}

#[test]
fn stored_id_lists_are_read_and_pruned() {
    let ids = uuid_list_from_json("[\"00000000-0000-0000-0000-000000000007\",\"67e55044-10b1-426f-9247-bb680e5fe0c8\"]").unwrap();
    assert_eq!(ids, vec![7u128, 0x67e5_5044_10b1_426f_9247_bb68_0e5f_e0c8]);
    assert_eq!(uuid_list_from_json("[]").unwrap(), Vec::<u128>::new());
    assert_eq!(uuid_list_from_json("[\"x\"]"), Err(IdListError::NotUuid("x".to_string())));
    assert!(matches!(uuid_list_from_json("{"), Err(IdListError::Json(_))));
    assert_eq!(index_without(&vec![1, 7, 2, 7], 7), (vec![1, 2], true));
    assert_eq!(index_without(&vec![1, 2], 7), (vec![1, 2], false));
}

#[test]
fn verification_probes_every_phase() {
    let phases = DeleteVerifyReport::verify_phases();
    assert_eq!(phases.len(), 9);
    let clean = DeleteVerifyReport::from_phase_probes(7, &vec![false; 9]);
    assert!(!clean.any_residual());
    for p in &phases {
        assert_eq!(clean.get(*p), Some(false));
    }
    let mut results = vec![false; 9];
    results[2] = true;
    let dirty = DeleteVerifyReport::from_phase_probes(7, &results);
    assert!(dirty.any_residual());
    assert_eq!(dirty.get(phases[2]), Some(true));
    assert_eq!(dirty.thread_id, 7);
}
