use harness_state::memory::{
    byte_len, FactCategory, FactExtractionResult, FactStats, MemoryInjectionConfig, MemorySystemStats,
    SimpleTokenCounter, DEFAULT_CHARS_PER_TOKEN, MEMORY_DOCUMENT_SCHEMA_VERSION,
};
use harness_state::memory_cache::MemoryCache;
use harness_state::memory_profile::{
    deduplicate_facts, fact_dedup_key, facts_kept_after_removal, format_memory_for_prompt, has_any_content, ContextUpdate, HistoryUpdate, MemoryHistory, MemoryMetadata,
    MemoryUserProfile, UserUpdate,
};
use harness_state::prompts::{fill_merge_prompt, fill_update_prompt, replace_all, MEMORY_UPDATE_PROMPT, MERGE_PROFILE_PROMPT};
use harness_state::semantic_terms::{build_sparse_vector, extract_semantic_terms, split_words_of};
use harness_state::session::UtcTimestamp;

fn at(secs: i64) -> UtcTimestamp {
    UtcTimestamp { secs, nanos: 0 }
}

#[test]
fn test_prompt_templates_exist() {
    assert!(MEMORY_UPDATE_PROMPT.contains("<current_memory>"));
    assert!(MEMORY_UPDATE_PROMPT.contains("newFacts"));
    assert!(MERGE_PROFILE_PROMPT.contains("<facts>"));
}

#[test]
fn prompts_are_filled_in() {
    let p = fill_update_prompt("Work Context: engineer", "user: hi");
    assert!(p.contains("<current_memory>\nWork Context: engineer\n</current_memory>"));
    assert!(p.contains("<conversation>\nuser: hi\n</conversation>"));
    assert!(!p.contains("{current_memory}"));
    assert!(!p.contains("{conversation}"));
    assert_eq!(p, MEMORY_UPDATE_PROMPT.replace("{current_memory}", "Work Context: engineer").replace("{conversation}", "user: hi"));
    let m = fill_merge_prompt("[fact]");
    assert_eq!(m, MERGE_PROFILE_PROMPT.replace("{facts}", "[fact]"));
    assert_eq!(replace_all("aaaa", "aa", "b"), "bb");
    assert_eq!(replace_all("abcabc", "bc", "X"), "aXaX");
    assert_eq!(replace_all("abc", "zz", "X"), "abc");
}

#[test]
fn fact_categories_have_names() {
    assert_eq!(FactCategory::Preference.as_str(), "preference");
    assert_eq!(FactCategory::Goal.as_str(), "goal");
    assert_eq!(FactCategory::default(), FactCategory::Knowledge);
    assert_eq!(FactCategory::from_label("Behavior"), FactCategory::Behavior);
    assert_eq!(FactCategory::from_label("CONTEXT"), FactCategory::Context);
    assert_eq!(FactCategory::from_label("unknown"), FactCategory::Knowledge);
}

#[test]
fn memory_defaults() {
    let c = MemoryInjectionConfig::default();
    assert_eq!(c.max_tokens, 2000);
    assert!(c.include_user_context && c.include_history && c.include_facts && !c.facts_only);
    assert_eq!(MEMORY_DOCUMENT_SCHEMA_VERSION, 2);
    assert_eq!(DEFAULT_CHARS_PER_TOKEN, 4);
    let s = FactStats::default();
    assert_eq!(s.total_facts + s.duplicates_removed + s.conflicts_resolved + s.facts_evicted, 0);
}

#[test]
fn simple_token_counter_counts_bytes() {
    let counter = SimpleTokenCounter::with_defaults();
    assert_eq!(counter.chars_per_token, 4);
    assert_eq!(counter.tokens_of("hello world!"), 3);
    assert_eq!(counter.tokens_of("abc"), 0);
    assert_eq!(byte_len("用户"), 6);
    assert_eq!(byte_len("é"), 2);
    assert_eq!(SimpleTokenCounter::new(2).tokens_of("用户"), 3);
}

#[test]
fn memory_stats_accumulate() {
    let mut s = MemorySystemStats::default();
    s.record_load(4);
    s.record_extraction(3, 1);
    s.record_extraction(2, 0);
    s.record_merge(7, 2);
    assert_eq!(s.total_facts, 4);
    assert_eq!(s.facts_extracted, 5);
    assert_eq!(s.conflicts_resolved, 3);
    assert_eq!(s.facts_merged, 7);
    let r = FactExtractionResult::new(3, 1, FactStats { total_facts: 9, duplicates_removed: 0, conflicts_resolved: 2, facts_evicted: 1 }, 8);
    assert_eq!((r.facts_extracted, r.facts_removed, r.conflicts_resolved, r.facts_evicted, r.total_facts), (3, 1, 2, 1, 8));
}

#[test]
fn cache_returns_what_was_saved() {
    let mut cache: MemoryCache<String> = MemoryCache::new(true);
    assert_eq!(cache.lookup(1), None);
    cache.record_save(1, &"doc-a".to_string(), at(1));
    assert_eq!(cache.lookup(1), Some("doc-a".to_string()));
    cache.record_save(1, &"doc-b".to_string(), at(2));
    assert_eq!(cache.lookup(1), Some("doc-b".to_string()));
    cache.record_load(2, &"loaded".to_string(), at(3));
    let stats = cache.stats();
    assert_eq!(stats.size, 2);
    assert!(stats.enabled);
    cache.invalidate(1);
    assert_eq!(cache.lookup(1), None);
    cache.clear();
    assert_eq!(cache.stats().size, 0);
}

#[test]
fn disabled_cache_holds_nothing() {
    let mut cache: MemoryCache<String> = MemoryCache::new(false);
    cache.record_save(1, &"doc".to_string(), at(1));
    assert_eq!(cache.lookup(1), None);
    assert_eq!(cache.stats().size, 0);
    assert!(!cache.stats().enabled);
}

#[test]
fn test_memory_document_has_content() {
    let user = MemoryUserProfile::default();
    let history = MemoryHistory::default();
    assert!(!has_any_content(0, &user, &history));
    assert!(has_any_content(1, &user, &history));
    let mut h = MemoryHistory::default();
    h.long_term_background = Some("grew up by the sea".to_string());
    assert!(has_any_content(0, &user, &h));
}

#[test]
fn user_updates_replace_marked_sections() {
    let mut user = MemoryUserProfile::default();
    user.apply_update(
        UserUpdate {
            work_context: Some(ContextUpdate { summary: "New work".to_string(), should_update: true }),
            personal_context: Some(ContextUpdate { summary: "ignored".to_string(), should_update: false }),
            top_of_mind: None,
        },
        at(5),
    );
    assert_eq!(user.work_context, Some("New work".to_string()));
    assert_eq!(user.personal_context, None);
    assert_eq!(user.updated_at, Some(at(5)));
    user.apply_update(UserUpdate { work_context: None, personal_context: None, top_of_mind: None }, at(9));
    assert_eq!(user.updated_at, Some(at(5)));
    let mut history = MemoryHistory::default();
    history.apply_update(
        HistoryUpdate {
            recent_months: Some(ContextUpdate { summary: "moved".to_string(), should_update: true }),
            earlier_context: None,
            long_term_background: None,
        },
        at(6),
    );
    assert_eq!(history.recent_months, Some("moved".to_string()));
    assert_eq!(history.updated_at, Some(at(6)));
}

#[test]
fn metadata_counts_facts() {
    let mut m = MemoryMetadata::default();
    m.record_fact_added(at(1));
    m.record_fact_added(at(2));
    m.record_facts_removed(1, at(3));
    assert_eq!(m.total_facts_processed, 2);
    assert_eq!(m.facts_removed, 1);
    assert_eq!(m.last_updated, Some(at(3)));
}

#[test]
fn memory_is_described_for_the_prompt() {
    let mut user = MemoryUserProfile::default();
    user.work_context = Some("engineer".to_string());
    let mut history = MemoryHistory::default();
    history.earlier_context = Some("studied".to_string());
    let facts = vec!["[knowledge] a".to_string(), "[goal] b".to_string()];
    assert_eq!(
        format_memory_for_prompt(&user, &history, &facts),
        "Work Context: engineer\nEarlier Context: studied\nFacts:\n[knowledge] a\n[goal] b"
    );
    assert_eq!(format_memory_for_prompt(&MemoryUserProfile::default(), &MemoryHistory::default(), &vec![]), "");
}

#[test]
fn words_are_split_at_non_alphanumerics() {
    assert_eq!(split_words_of("a,,b"), vec!["a", "", "b"]);
    assert_eq!(split_words_of(""), vec![""]);
    assert_eq!(split_words_of("数据 库"), vec!["数据", "库"]);
}

#[test]
fn semantic_terms_rank_by_count_then_name() {
    assert_eq!(
        extract_semantic_terms("Redis cache uses Redis; cache architecture of redis"),
        vec!["redis", "cache", "architecture", "uses"]
    );
    assert_eq!(extract_semantic_terms("a b"), vec!["a b"]);
    assert_eq!(extract_semantic_terms("   "), Vec::<String>::new());
    let text = "alpha bravo charlie delta echo foxtrot golf hotel india juliet kilo lima mike";
    let terms = extract_semantic_terms(text);
    assert_eq!(terms.len(), 12);
    assert_eq!(terms[0], "alpha");
    assert!(!terms.contains(&"mike".to_string()));
}

#[test]
fn sparse_vectors_count_terms_in_order() {
    let v = build_sparse_vector("postgres database Postgres");
    assert_eq!(v.dimensions, vec!["database", "postgres"]);
    assert_eq!(v.values, vec![1, 2]);
    let v = build_sparse_vector("ab");
    assert_eq!(v.dimensions, vec!["ab"]);
    assert_eq!(v.values, vec![1]);
}

#[test]
fn management_passes_count_processed_and_removed_facts() {
    let mut meta = MemoryMetadata::default();
    let stats = FactStats { total_facts: 7, duplicates_removed: 2, conflicts_resolved: 1, facts_evicted: 1 };
    meta.record_management(&stats, at(50));
    assert_eq!(meta.total_facts_processed, 7);
    assert_eq!(meta.facts_removed, 4);
    assert_eq!(meta.merge_count, 0);
    assert_eq!(meta.last_updated, Some(at(50)));
}

#[test]
fn duplicate_keys_ignore_case_and_surrounding_space() {
    assert_eq!(fact_dedup_key("  Likes Rust \n"), "likes rust");
    assert_eq!(fact_dedup_key("LIKES RUST"), fact_dedup_key("likes rust"));
}

#[test]
fn test_deduplication() {
    // Two facts "Test" with confidence 0.5 and 0.9 (ranks 0 and 1): the second is kept.
    let contents = vec!["Test".to_string(), "Test".to_string()];
    let kept = deduplicate_facts(&contents, &vec![0, 1]);
    assert_eq!(kept.len(), 1);
    assert_eq!(contents.len() - kept.len(), 1);
    assert_eq!(kept, vec![1]);
}

#[test]
fn deduplication_keys_ignore_case_and_surrounding_space_and_keep_the_first_on_ties() {
    let contents: Vec<String> = ["Likes tea", "  likes TEA ", "Lives in Paris", "likes tea"].iter().map(|s| s.to_string()).collect();
    assert_eq!(deduplicate_facts(&contents, &vec![1, 1, 0, 1]), vec![0, 2]);
    assert_eq!(deduplicate_facts(&contents, &vec![1, 2, 0, 3]), vec![3, 2]);
    assert_eq!(deduplicate_facts(&Vec::new(), &Vec::new()), Vec::<usize>::new());
}

#[test]
fn semantic_terms_are_the_sparse_dimensions_ranked_by_count() {
    let v = build_sparse_vector("redis cache Redis");
    assert_eq!(v.dimensions, vec!["cache".to_string(), "redis".to_string()]);
    assert_eq!(v.values, vec![1, 2]);
    assert_eq!(extract_semantic_terms("redis cache Redis"), vec!["redis".to_string(), "cache".to_string()]);
}

#[test]
fn the_simple_counter_is_a_token_counter() {
    use_counter(&SimpleTokenCounter::with_defaults());
}

fn use_counter(counter: &dyn harness_state::memory::TokenCounter) {
    assert_eq!(counter.count_tokens("abcdefgh"), 2);
    assert_eq!(counter.count_tokens(""), 0);
}

#[test]
fn removing_facts_keeps_the_unlisted_ones_in_order() {
    let ids: Vec<String> = ["f1", "f2", "f3", "f2"].iter().map(|s| s.to_string()).collect();
    assert_eq!(facts_kept_after_removal(&ids, &vec!["f2".to_string()]), vec![0, 2]);
    assert_eq!(facts_kept_after_removal(&ids, &Vec::new()), vec![0, 1, 2, 3]);
    assert_eq!(facts_kept_after_removal(&ids, &ids), Vec::<usize>::new());
}
