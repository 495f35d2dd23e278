use harness_state::memory::FactCategory;
use harness_state::memory_archive::{
    best_first_positions, build_archived_segment, compression_reason, rank_archived_positions, select_key_facts,
    summarize_key_facts, ArchiveFact, RankKey,
};
use harness_state::session::UtcTimestamp;

fn at(secs: i64) -> UtcTimestamp {
    UtcTimestamp { secs, nanos: 0 }
}

fn key(primary: u64, secondary: u64, secs: i64) -> RankKey {
    RankKey { primary, secondary, at: at(secs) }
}

fn fact(id: &str, content: &str, category: FactCategory, mandatory: bool, rank: u64, secs: i64) -> ArchiveFact {
    ArchiveFact {
        id: id.to_string(),
        content: content.to_string(),
        category,
        mandatory,
        confidence_rank: rank,
        created_at: at(secs),
    }
}

#[test]
fn items_are_ranked_best_first_with_later_items_first_among_equals() {
    let keys = vec![key(1, 0, 5), key(3, 0, 1), key(1, 0, 9), key(1, 2, 0), key(1, 0, 5)];
    assert_eq!(best_first_positions(&keys), vec![1, 3, 2, 0, 4]);
}

#[test]
fn archived_entries_are_ranked_filtered_and_limited() {
    let keys = vec![key(0, 0, 1), key(2, 0, 1), key(1, 0, 3), key(1, 0, 4)];
    let has_key_facts = vec![true, false, true, true];
    assert_eq!(rank_archived_positions(&keys, &has_key_facts, false, 3), vec![1, 3, 2]);
    // A blank query leaves out entries without key facts.
    assert_eq!(rank_archived_positions(&keys, &has_key_facts, true, 3), vec![3, 2, 0]);
    assert_eq!(rank_archived_positions(&keys, &has_key_facts, false, 0), Vec::<usize>::new());
}

#[test]
fn key_facts_put_mandatory_facts_first_and_keep_them_all() {
    let facts = vec![
        fact("a", "Uses Rust", FactCategory::Knowledge, false, 3, 1),
        fact("b", "Deploys on Friday", FactCategory::Goal, true, 0, 2),
        fact("c", "Likes tea", FactCategory::Preference, false, 2, 3),
        fact("d", "Owns the cache", FactCategory::Knowledge, true, 1, 4),
        fact("e", "Reads docs", FactCategory::Behavior, false, 1, 5),
    ];
    assert_eq!(select_key_facts(&facts, 3), vec![3, 1, 0]);
    assert_eq!(select_key_facts(&facts, 1), vec![3, 1]);
    // With no limit, the best fact is still chosen.
    let plain = vec![fact("x", "One", FactCategory::Context, false, 0, 1), fact("y", "Two", FactCategory::Context, false, 1, 1)];
    assert_eq!(select_key_facts(&plain, 0), vec![1]);
    // A fact whose id is chosen already is skipped.
    let dup = vec![fact("x", "One", FactCategory::Context, false, 2, 1), fact("x", "Again", FactCategory::Context, false, 1, 1), fact("z", "Two", FactCategory::Context, false, 0, 1)];
    assert_eq!(select_key_facts(&dup, 2), vec![0, 2]);
    assert_eq!(summarize_key_facts(&facts, &vec![3, 1]), "[knowledge] Owns the cache; [goal] Deploys on Friday");
}

#[test]
fn facts_are_compressed_into_one_entry_per_group() {
    let facts = vec![
        fact("f1", "Deployment window is Friday", FactCategory::Goal, true, 2, 1),
        fact("f2", "Deployment uses the blue cluster", FactCategory::Knowledge, false, 1, 2),
        fact("f3", "Likes green tea", FactCategory::Preference, false, 0, 3),
    ];
    let plans = build_archived_segment(&facts);
    assert_eq!(plans.len(), 2);
    assert_eq!(plans[0].members, vec![0, 1]);
    assert_eq!(plans[0].key_facts, vec![0, 1]);
    assert_eq!(plans[0].summary, "[goal] Deployment window is Friday; [knowledge] Deployment uses the blue cluster");
    assert_eq!(plans[0].semantic_terms[0], "deployment");
    assert_eq!(plans[1].members, vec![2]);
    assert_eq!(plans[1].summary, "[preference] Likes green tea");
    assert!(build_archived_segment(&Vec::new()).is_empty());
    assert_eq!(compression_reason(3, 2), "semantically compressed 3 facts into 2 archived entries");
}
