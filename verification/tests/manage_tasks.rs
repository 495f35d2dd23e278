use harness_state::errors::StateError;
use harness_state::manage_tasks::{
    add_to_task_index, decode_pg_task_row, decode_pg_task_rows, decode_sqlite_task_row, decode_sqlite_task_rows,
    find_task_record, list_found_tasks, order_newest_first, task_from_sqlite_parts, task_index_ids,
    timestamp_before, upsert_task_record, ManageTaskRecord, PgTaskRow, SqliteTaskRow,
};
use harness_state::session::UtcTimestamp;
use serde_json::Value;

fn at(secs: i64) -> UtcTimestamp {
    UtcTimestamp { secs, nanos: 0 }
}

fn task(id: &str, thread: &str, status: &str, updated: i64) -> ManageTaskRecord {
    ManageTaskRecord {
        task_id: id.to_string(),
        thread_id: thread.to_string(),
        status: status.to_string(),
        output_chunks: vec!["a".to_string()],
        error: None,
        callback_url: None,
        stream: false,
        client_task_id: None,
        tenant_id: "default".to_string(),
        user_id: "u1".to_string(),
        created_at: at(1),
        updated_at: at(updated),
        version: 1,
    }
}

fn ids(tasks: &[ManageTaskRecord]) -> Vec<&str> {
    tasks.iter().map(|t| t.task_id.as_str()).collect()
}

fn sqlite_row(chunks: &str, created: &str, updated: &str, stream: i64) -> SqliteTaskRow {
    SqliteTaskRow {
        task_id: "t1".to_string(),
        thread_id: "th1".to_string(),
        status: "pending".to_string(),
        output_chunks: chunks.to_string(),
        error: None,
        callback_url: Some("http://cb".to_string()),
        stream,
        client_task_id: None,
        tenant_id: "default".to_string(),
        user_id: "u1".to_string(),
        created_at: created.to_string(),
        updated_at: updated.to_string(),
        version: 3,
    }
}

fn pg_row(chunks: Value) -> PgTaskRow {
    PgTaskRow {
        task_id: "t1".to_string(),
        thread_id: "th1".to_string(),
        status: "done".to_string(),
        output_chunks: chunks,
        error: Some("boom".to_string()),
        callback_url: None,
        stream: true,
        client_task_id: Some("c1".to_string()),
        tenant_id: "default".to_string(),
        user_id: "u1".to_string(),
        created_at: at(10),
        updated_at: at(20),
        version: 2,
    }
}

#[test]
fn upsert_appends_new_tasks_and_replaces_known_ones() {
    let mut tasks = Vec::new();
    upsert_task_record(&mut tasks, &task("t1", "th1", "pending", 1));
    upsert_task_record(&mut tasks, &task("t2", "th1", "pending", 2));
    upsert_task_record(&mut tasks, &task("t1", "th1", "done", 3));
    assert_eq!(ids(&tasks), vec!["t1", "t2"]);
    assert_eq!(tasks[0].status, "done");
    let found = find_task_record(&tasks, "t1").expect("t1");
    assert_eq!(found.status, "done");
    assert_eq!(found.updated_at, at(3));
    assert!(find_task_record(&tasks, "t3").is_none());
}

#[test]
fn listings_are_newest_first_and_ties_keep_their_order() {
    let tasks = vec![
        task("a", "th", "s", 5),
        task("b", "th", "s", 9),
        task("c", "th", "s", 5),
        task("d", "th", "s", 7),
    ];
    let ordered = order_newest_first(tasks);
    assert_eq!(ids(&ordered), vec!["b", "d", "a", "c"]);
}

#[test]
fn timestamps_compare_by_seconds_then_nanoseconds() {
    assert!(timestamp_before(at(1), at(2)));
    assert!(timestamp_before(UtcTimestamp { secs: 1, nanos: 5 }, UtcTimestamp { secs: 1, nanos: 6 }));
    assert!(!timestamp_before(at(2), at(2)));
}

#[test]
fn the_thread_index_gets_each_task_once() {
    let mut index = vec!["t1".to_string()];
    add_to_task_index(&mut index, "t2");
    add_to_task_index(&mut index, "t1");
    add_to_task_index(&mut index, "t2");
    assert_eq!(index, vec!["t1".to_string(), "t2".to_string()]);
}

#[test]
fn an_unreadable_thread_index_is_empty() {
    assert_eq!(task_index_ids("[\"t1\",\"t2\"]"), vec!["t1".to_string(), "t2".to_string()]);
    assert!(task_index_ids("not json").is_empty());
    assert!(task_index_ids("[1, 2]").is_empty());
}

#[test]
fn listings_from_lookups_skip_missing_tasks() {
    let found = vec![Some(task("a", "th", "s", 1)), None, Some(task("b", "th", "s", 4))];
    let listed = list_found_tasks(found);
    assert_eq!(ids(&listed), vec!["b", "a"]);
}

#[test]
fn sqlite_rows_decode_into_tasks() {
    let row = sqlite_row("[\"x\",\"y\"]", "2024-01-02T03:04:05Z", "2024-01-02T03:04:06.5+00:00", 1);
    let t = decode_sqlite_task_row(&row).expect("decodes");
    assert_eq!(t.output_chunks, vec!["x".to_string(), "y".to_string()]);
    assert_eq!(t.created_at, UtcTimestamp { secs: 1704164645, nanos: 0 });
    assert_eq!(t.updated_at, UtcTimestamp { secs: 1704164646, nanos: 500_000_000 });
    assert!(t.stream);
    assert_eq!(t.callback_url.as_deref(), Some("http://cb"));
    assert_eq!(t.version, 3);
    let quiet = decode_sqlite_task_row(&sqlite_row("[]", "2024-01-02T03:04:05Z", "2024-01-02T03:04:05Z", 0)).expect("decodes");
    assert!(!quiet.stream);
    assert!(quiet.output_chunks.is_empty());
}

#[test]
fn sqlite_rows_that_do_not_decode_give_backend_errors() {
    match decode_sqlite_task_row(&sqlite_row("{", "2024-01-02T03:04:05Z", "2024-01-02T03:04:05Z", 0)) {
        Err(StateError::Backend(m)) => assert!(m.starts_with("decode output_chunks: ")),
        other => panic!("unexpected {other:?}"),
    }
    match decode_sqlite_task_row(&sqlite_row("[]", "yesterday", "2024-01-02T03:04:05Z", 0)) {
        Err(StateError::Backend(m)) => assert!(!m.starts_with("decode output_chunks")),
        other => panic!("unexpected {other:?}"),
    }
}

#[test]
fn task_parts_map_each_failure_to_its_message() {
    let row = sqlite_row("[]", "", "", 0);
    match task_from_sqlite_parts(&row, Err("bad list".to_string()), Ok(at(1)), Ok(at(2))) {
        Err(StateError::Backend(m)) => assert_eq!(m, "decode output_chunks: bad list"),
        other => panic!("unexpected {other:?}"),
    }
    match task_from_sqlite_parts(&row, Ok(vec![]), Err("bad created".to_string()), Err("bad updated".to_string())) {
        Err(StateError::Backend(m)) => assert_eq!(m, "bad created"),
        other => panic!("unexpected {other:?}"),
    }
    match task_from_sqlite_parts(&row, Ok(vec![]), Ok(at(1)), Err("bad updated".to_string())) {
        Err(StateError::Backend(m)) => assert_eq!(m, "bad updated"),
        other => panic!("unexpected {other:?}"),
    }
    let t = task_from_sqlite_parts(&row, Ok(vec!["c".to_string()]), Ok(at(1)), Ok(at(2))).expect("ok");
    assert_eq!(t.created_at, at(1));
    assert_eq!(t.updated_at, at(2));
    assert_eq!(t.output_chunks, vec!["c".to_string()]);
}

#[test]
fn the_first_row_that_does_not_decode_fails_the_listing() {
    let rows = vec![
        sqlite_row("[]", "2024-01-02T03:04:05Z", "2024-01-02T03:04:05Z", 0),
        sqlite_row("[", "2024-01-02T03:04:05Z", "2024-01-02T03:04:05Z", 0),
        sqlite_row("[]", "bad", "2024-01-02T03:04:05Z", 0),
    ];
    match decode_sqlite_task_rows(&rows) {
        Err(StateError::Backend(m)) => assert!(m.starts_with("decode output_chunks: ")),
        other => panic!("unexpected {other:?}"),
    }
    let good = vec![sqlite_row("[\"a\"]", "2024-01-02T03:04:05Z", "2024-01-02T03:04:05Z", 0)];
    assert_eq!(decode_sqlite_task_rows(&good).expect("ok").len(), 1);
}

#[test]
fn postgres_rows_decode_their_output_lists() {
    let t = decode_pg_task_row(&pg_row(Value::from(vec!["p", "q"]))).expect("decodes");
    assert_eq!(t.output_chunks, vec!["p".to_string(), "q".to_string()]);
    assert_eq!(t.error.as_deref(), Some("boom"));
    assert_eq!(t.updated_at, at(20));
    assert!(t.stream);
    match decode_pg_task_row(&pg_row(Value::from("not a list"))) {
        Err(StateError::Backend(m)) => assert!(m.starts_with("decode output_chunks: ")),
        other => panic!("unexpected {other:?}"),
    }
    let rows = vec![pg_row(Value::from(vec!["a"])), pg_row(Value::from(7))];
    assert!(decode_pg_task_rows(&rows).is_err());
    let one = vec![pg_row(Value::from(vec!["a"]))];
    assert_eq!(decode_pg_task_rows(&one).expect("ok").len(), 1);
}
