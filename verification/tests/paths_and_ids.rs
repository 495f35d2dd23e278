use harness_state::delete_report::DeleteThreadPhase;
use harness_state::errors::StateError;
use harness_state::ids::{thread_ids_from_texts, uuid_to_string};
use harness_state::local_fs::{
    memory_file_thread_ids, require_thread_id, step_from_file_name, steps_from_file_names, LocalFsLayout, LocalFsStateStore,
};
use harness_state::numbers::{parse_u64, sort_dedup_steps, sort_steps, u64_to_decimal, u64_to_padded_decimal};
use harness_state::path_safety::sanitize_thread_id;

#[test]
fn sanitize_thread_id_allows_safe_values() {
    assert_eq!(sanitize_thread_id("thread_1-abc"), Some("thread_1-abc".to_string()));
}

#[test]
fn sanitize_thread_id_rejects_unsafe_values() {
    assert!(sanitize_thread_id("").is_none());
    assert!(sanitize_thread_id("../a").is_none());
    assert!(sanitize_thread_id("a/b").is_none());
    assert!(sanitize_thread_id("a.b").is_none());
}

#[test]
fn sanitize_thread_id_rejects_spaces_and_non_ascii() {
    assert!(sanitize_thread_id("a b").is_none());
    assert!(sanitize_thread_id("线程").is_none());
    assert_eq!(sanitize_thread_id("ABC_123"), Some("ABC_123".to_string()));
}

#[test]
fn uuid_text_is_hyphenated_lower_case() {
    let id: u128 = 0x67e5_5044_10b1_426f_9247_bb68_0e5f_e0c8;
    assert_eq!(uuid_to_string(id), "67e55044-10b1-426f-9247-bb680e5fe0c8");
    assert_eq!(uuid_to_string(0), "00000000-0000-0000-0000-000000000000");
    let u = uuid::Uuid::from_u128(id);
    assert_eq!(uuid_to_string(id), u.to_string());
}

#[test]
fn decimal_formatting_and_parsing() {
    assert_eq!(u64_to_decimal(0), "0");
    assert_eq!(u64_to_decimal(1234567890), "1234567890");
    assert_eq!(u64_to_padded_decimal(42, 20), "00000000000000000042");
    assert_eq!(u64_to_padded_decimal(123, 2), "123");
    assert_eq!(parse_u64("42"), Some(42));
    assert_eq!(parse_u64("+7"), Some(7));
    assert_eq!(parse_u64("18446744073709551615"), Some(u64::MAX));
    assert_eq!(parse_u64("18446744073709551616"), None);
    assert_eq!(parse_u64(""), None);
    assert_eq!(parse_u64("+"), None);
    assert_eq!(parse_u64("-1"), None);
    assert_eq!(parse_u64("1a"), None);
}

#[test]
fn step_numbers_sort_and_dedup() {
    assert_eq!(sort_steps(vec![5, 1, 3, 1]), vec![1, 1, 3, 5]);
    assert_eq!(sort_dedup_steps(vec![5, 1, 3, 1, 5]), vec![1, 3, 5]);
    assert_eq!(sort_steps(vec![]), Vec::<u64>::new());
}

#[test]
fn checkpoint_step_file_names_round_trip() {
    let name = format!("{}.json", u64_to_padded_decimal(42, 20));
    assert_eq!(step_from_file_name(&name), Some(42));
    assert_eq!(step_from_file_name("latest.json"), None);
    assert_eq!(step_from_file_name("00000000000000000042.txt"), None);
    let names = vec![
        "00000000000000000003.json".to_string(),
        "latest.json".to_string(),
        "00000000000000000001.json".to_string(),
    ];
    assert_eq!(steps_from_file_names(&names), vec![1, 3]);
}

#[test]
fn local_fs_store_paths() {
    let store = LocalFsStateStore::new("/data".to_string());
    let tid: u128 = 0x67e5_5044_10b1_426f_9247_bb68_0e5f_e0c8;
    let rid: u128 = 1;
    let p = store.checkpoint_step_path(tid, rid, 7);
    assert_eq!(p.base, "/data");
    assert_eq!(
        p.components,
        vec![
            "state".to_string(),
            "checkpoints".to_string(),
            "67e55044-10b1-426f-9247-bb680e5fe0c8".to_string(),
            "00000000-0000-0000-0000-000000000001".to_string(),
            "steps".to_string(),
            "00000000000000000007.json".to_string(),
        ]
    );
    let m = store.memory_path(tid);
    assert_eq!(m.components, vec!["memory".to_string(), "67e55044-10b1-426f-9247-bb680e5fe0c8.json".to_string()]);
    let meta = store.thread_meta_path();
    assert_eq!(meta.components, vec!["state".to_string(), "thread_meta.json".to_string()]);
}

#[test]
fn local_fs_layout_lists_base_dirs() {
    let layout = LocalFsLayout::new("root");
    let dirs = layout.base_dirs();
    let names: Vec<String> = dirs.iter().map(|d| d.components[0].clone()).collect();
    assert_eq!(names, vec!["config", "tasks", "threads", "uploads", "artifacts", "memory"]);
    assert_eq!(layout.thread_dir("t1").components, vec!["threads".to_string(), "t1".to_string()]);
}

#[test]
fn unsafe_thread_ids_are_refused_before_paths_are_built() {
    match require_thread_id("../x") {
        Err(StateError::Backend(m)) => assert_eq!(m, "invalid thread_id: ../x"),
        other => panic!("unexpected: {other:?}"),
    }
    assert!(require_thread_id("thread-1").is_ok());
    assert!(LocalFsStateStore::require_valid_thread_id("a.b").is_err());
}

#[test]
fn memory_file_names_give_back_their_threads() {
    let id: u128 = 0x1234_5678_9abc_4def_8123_4567_89ab_cdef;
    let names = vec![
        format!("{}.json", uuid_to_string(id)),
        "notes.txt".to_string(),
        "not-a-uuid.json".to_string(),
        "00000000-0000-0000-0000-000000000001.json".to_string(),
    ];
    assert_eq!(memory_file_thread_ids(&names), vec![id, 1]);
}

#[test]
fn thread_id_texts_that_are_not_uuids_are_skipped() {
    let texts = vec![
        "12345678-9abc-4def-8123-456789abcdef".to_string(),
        "garbage".to_string(),
        "123456789ABC4DEF8123456789ABCDEF".to_string(),
    ];
    let id: u128 = 0x1234_5678_9abc_4def_8123_4567_89ab_cdef;
    assert_eq!(thread_ids_from_texts(&texts), vec![id, id]);
}

#[test]
fn local_fs_deletion_targets_are_thread_scoped() {
    let store = LocalFsStateStore::new("/data".to_string());
    let tid: u128 = 0x67e5_5044_10b1_426f_9247_bb68_0e5f_e0c8;
    let t = "67e55044-10b1-426f-9247-bb680e5fe0c8".to_string();
    let (dir, is_dir) = store.deletion_target(tid, DeleteThreadPhase::Checkpoints).unwrap();
    assert!(is_dir);
    assert_eq!(dir.components, vec!["state".to_string(), "checkpoints".to_string(), t.clone()]);
    let (file, is_dir) = store.deletion_target(tid, DeleteThreadPhase::ManageTasks).unwrap();
    assert!(!is_dir);
    assert_eq!(file.components, vec!["tasks".to_string(), format!("manage-{t}.json")]);
    let (uploads, is_dir) = store.deletion_target(tid, DeleteThreadPhase::Uploads).unwrap();
    assert!(is_dir);
    assert_eq!(uploads.components, vec!["uploads".to_string(), t]);
    assert!(store.deletion_target(tid, DeleteThreadPhase::ThreadMeta).is_none());
}
