use harness_state::memory::{FactCategory, MemoryInjectionConfig, SimpleTokenCounter};
use harness_state::memory_injection::{
    fill_by_counts, fill_token_budget, format_complete_memory, format_injected_facts, inject_memory_to_prompt, InjectedFact,
};
use harness_state::memory_profile::{MemoryHistory, MemoryUserProfile};
use harness_state::memory_clusters::cluster_facts;
use harness_state::memory_json::{memory_json_text, older_memory_fact_texts};
use harness_state::memory_segments::{
    format_segmented_memory, newest_first_positions, retrieve_segmented_by_counts, retrieve_segmented_context, select_segmented_context, ArchivedEntryText,
    DatedText,
};
use harness_state::session::UtcTimestamp;

fn texts(items: &[&str]) -> Vec<String> {
    items.iter().map(|s| s.to_string()).collect()
}

fn fact(category: FactCategory, content: &str) -> InjectedFact {
    InjectedFact { category, content: content.to_string() }
}

fn dated(text: &str, secs: i64) -> DatedText {
    DatedText { text: text.to_string(), created_at: UtcTimestamp { secs, nanos: 0 } }
}

fn empty_user() -> MemoryUserProfile {
    MemoryUserProfile { work_context: None, personal_context: None, top_of_mind: None, updated_at: None }
}

fn empty_history() -> MemoryHistory {
    MemoryHistory { recent_months: None, earlier_context: None, long_term_background: None, updated_at: None }
}

#[test]
fn facts_are_kept_while_they_fit_the_budget() {
    let counter = SimpleTokenCounter::with_defaults();
    // "abcdefg\n" is 8 bytes: 2 tokens; "abc\n" is 4 bytes: 1 token.
    let contents = texts(&["abcdefg", "abc", "abcdefg"]);
    let fill = fill_token_budget(&contents, 3, &counter);
    assert_eq!(fill.facts_included, 2);
    assert_eq!(fill.total_tokens, 3);
    assert_eq!(fill.facts_excluded, 1);
    // The first fact that does not fit ends the run, even if a later one would fit.
    let blocked = fill_token_budget(&texts(&["abcdefghijklmnop", "a"]), 3, &counter);
    assert_eq!(blocked.facts_included, 0);
    assert_eq!(blocked.total_tokens, 0);
    assert_eq!(blocked.facts_excluded, 2);
}

#[test]
fn a_zero_budget_or_no_facts_keeps_nothing() {
    let counter = SimpleTokenCounter::with_defaults();
    let none = fill_token_budget(&texts(&["abc"]), 0, &counter);
    assert_eq!((none.facts_included, none.total_tokens, none.facts_excluded), (0, 0, 1));
    let empty = fill_token_budget(&Vec::new(), 100, &counter);
    assert_eq!((empty.facts_included, empty.total_tokens, empty.facts_excluded), (0, 0, 0));
}

#[test]
fn the_fact_block_numbers_the_kept_facts() {
    let facts = vec![fact(FactCategory::Preference, "Likes Python"), fact(FactCategory::Goal, "Ship v2")];
    assert_eq!(
        format_injected_facts(&facts, 0),
        "Memory Facts:\n1. [preference] Likes Python\n2. [goal] Ship v2\n"
    );
    assert_eq!(
        format_injected_facts(&facts, 3),
        "Memory Facts:\n1. [preference] Likes Python\n2. [goal] Ship v2\n\n(... and 3 more facts omitted due to token budget)"
    );
    assert_eq!(format_injected_facts(&Vec::new(), 4), "");
}

#[test]
fn complete_memory_wraps_sections_and_facts() {
    let mut user = empty_user();
    user.work_context = Some("Software engineer".to_string());
    let mut history = empty_history();
    history.long_term_background = Some("Studied math".to_string());
    let config = MemoryInjectionConfig::default();
    let facts = "Memory Facts:\n1. [preference] Likes Python\n";
    let out = format_complete_memory(&user, &history, &config, facts);
    assert_eq!(
        out,
        "<memory>\n<work_context>Software engineer</work_context>\n<long_term_background>Studied math</long_term_background>\n<facts>\nMemory Facts:\n1. [preference] Likes Python\n</facts>\n</memory>"
    );
    assert!(out.contains("Likes Python"));
}

#[test]
fn facts_only_mode_gives_the_fact_block_alone() {
    let mut user = empty_user();
    user.work_context = Some("Engineer".to_string());
    let config = MemoryInjectionConfig { facts_only: true, ..MemoryInjectionConfig::default() };
    let out = format_complete_memory(&user, &empty_history(), &config, "Memory Facts:\n1. [knowledge] Fact\n");
    assert!(!out.contains("<work_context>"));
    assert!(out.contains("Fact"));
}

#[test]
fn nothing_to_inject_gives_no_memory_block() {
    let config = MemoryInjectionConfig { include_facts: false, ..MemoryInjectionConfig::default() };
    assert_eq!(format_complete_memory(&empty_user(), &empty_history(), &config, "ignored"), "");
    assert_eq!(format_complete_memory(&empty_user(), &empty_history(), &MemoryInjectionConfig::default(), ""), "");
}

#[test]
fn memory_is_appended_to_the_prompt_after_a_blank_line() {
    assert_eq!(inject_memory_to_prompt("You are a helpful assistant.", "<memory>\nx\n</memory>"), "You are a helpful assistant.\n\n<memory>\nx\n</memory>");
    assert_eq!(inject_memory_to_prompt("You are a helpful assistant.", ""), "You are a helpful assistant.");
}

#[test]
fn segmented_retrieval_fills_recent_then_working_then_archived() {
    let counter = SimpleTokenCounter::with_defaults();
    // recent: 2 + 2 tokens; working: 1 token then 3; archived: 5 tokens (skipped), 1 token (kept).
    let recent = texts(&["abcdefg", "hijklmn"]);
    let working = texts(&["abc", "abcdefghijk"]);
    let archived = vec![
        ArchivedEntryText { summary: "abcdefghij".to_string(), key_facts: texts(&["klmnopqrs"]) },
        ArchivedEntryText { summary: "abcd".to_string(), key_facts: Vec::new() },
    ];
    let sel = select_segmented_context(&recent, &working, &archived, 6, &counter);
    assert_eq!(sel.recent_kept, 2);
    assert_eq!(sel.working_kept, 1);
    assert_eq!(sel.archived_kept, vec![1]);
    assert_eq!(sel.total_tokens, 6);
}

#[test]
fn segmented_memory_is_written_in_tagged_sections() {
    let recent = vec![fact(FactCategory::Context, "Lives in Paris")];
    let working = texts(&["Worked on storage"]);
    let archived = vec![ArchivedEntryText { summary: "Earlier projects".to_string(), key_facts: texts(&["Built a cache"]) }];
    assert_eq!(
        format_segmented_memory(&recent, &working, &archived),
        "<recent>\n- [context] Lives in Paris\n</recent>\n<working>\n- Worked on storage\n</working>\n<archived>\n- Earlier projects\n  * Built a cache\n</archived>"
    );
    assert_eq!(format_segmented_memory(&Vec::new(), &Vec::new(), &Vec::new()), "");
    assert_eq!(format_segmented_memory(&Vec::new(), &working, &Vec::new()), "<working>\n- Worked on storage\n</working>");
}

#[test]
fn test_truncate_to_budget() {
    let counter = SimpleTokenCounter::with_defaults();
    // The facts in rank order (confidence 0.9, 0.7, 0.5).
    let ranked = texts(&["Short", "Medium length fact", "Very long fact with lots of content that should be truncated"]);
    let result = fill_token_budget(&ranked, 5, &counter);
    assert!(result.facts_included >= 1);
    assert!(result.total_tokens <= 100);
    assert_eq!(result.facts_included, 2);
    assert_eq!(result.total_tokens, 5);
}

#[test]
fn test_format_for_injection() {
    let counter = SimpleTokenCounter::with_defaults();
    let facts = vec![fact(FactCategory::Preference, "Fact 1"), fact(FactCategory::Knowledge, "Fact 2")];
    let contents: Vec<String> = facts.iter().map(|f| f.content.clone()).collect();
    let fill = fill_token_budget(&contents, 100, &counter);
    let kept: Vec<InjectedFact> = facts[..fill.facts_included].to_vec();
    let formatted = format_injected_facts(&kept, fill.facts_excluded);
    assert!(formatted.contains("Memory Facts:"));
    assert!(formatted.contains("Fact 1"));
    assert!(formatted.contains("Fact 2"));
}

#[test]
fn test_empty_facts() {
    let counter = SimpleTokenCounter::with_defaults();
    let result = fill_token_budget(&Vec::new(), 100, &counter);
    assert_eq!(result.facts_included, 0);
    assert_eq!(result.total_tokens, 0);
}

#[test]
fn test_format_complete_memory() {
    let mut user = empty_user();
    user.work_context = Some("Software engineer".to_string());
    let config = MemoryInjectionConfig::default();
    let facts_text = format_injected_facts(&vec![fact(FactCategory::Preference, "Likes Python")], 0);
    let formatted = format_complete_memory(&user, &empty_history(), &config, &facts_text);
    assert!(formatted.contains("<memory>"));
    assert!(formatted.contains("<work_context>"));
    assert!(formatted.contains("Software engineer"));
    assert!(formatted.contains("Likes Python"));
}

#[test]
fn test_inject_to_prompt() {
    let config = MemoryInjectionConfig::default();
    let facts_text = format_injected_facts(&vec![fact(FactCategory::Knowledge, "Test fact")], 0);
    let memory = format_complete_memory(&empty_user(), &empty_history(), &config, &facts_text);
    let prompt = inject_memory_to_prompt("You are a helpful assistant.", &memory);
    assert!(prompt.contains("You are a helpful assistant."));
    assert!(prompt.contains("<memory>"));
}

#[test]
fn test_facts_only_mode() {
    let mut user = empty_user();
    user.work_context = Some("Engineer".to_string());
    let config = MemoryInjectionConfig { facts_only: true, ..MemoryInjectionConfig::default() };
    let facts_text = format_injected_facts(&vec![fact(FactCategory::Knowledge, "Fact")], 0);
    let formatted = format_complete_memory(&user, &empty_history(), &config, &facts_text);
    assert!(!formatted.contains("<work_context>"));
    assert!(formatted.contains("Fact"));
}

#[test]
fn blank_memory_text_stands_for_an_empty_document() {
    assert_eq!(memory_json_text("  \n\t "), None);
    assert_eq!(memory_json_text("  {\"facts\": []}\n"), Some("{\"facts\": []}".to_string()));
}

#[test]
fn legacy_memory_lists_carry_no_structured_facts() {
    assert_eq!(older_memory_fact_texts("[\"fact1\", \"fact2\", \"fact3\"]"), Ok(Vec::new()));
}

#[test]
fn older_memory_objects_keep_their_string_facts() {
    assert_eq!(
        older_memory_fact_texts("{\"facts\": [\"likes tea\", 3, \"lives in Oslo\"]}"),
        Ok(vec!["likes tea".to_string(), "lives in Oslo".to_string()])
    );
    assert_eq!(older_memory_fact_texts("{\"user\": {}}"), Ok(Vec::new()));
    assert_eq!(older_memory_fact_texts("not json"), Err("memory json: unable to decode".to_string()));
}

#[test]
fn facts_join_the_first_group_sharing_a_term_or_category() {
    let categories = vec![
        FactCategory::Knowledge,
        FactCategory::Preference,
        FactCategory::Goal,
        FactCategory::Preference,
        FactCategory::Context,
    ];
    let terms = vec![
        texts(&["postgres", "database"]),
        texts(&["rust"]),
        texts(&["database", "replica"]),
        texts(&["tea"]),
        Vec::new(),
    ];
    assert_eq!(cluster_facts(&categories, &terms), vec![vec![0, 2], vec![1, 3], vec![4]]);
    // A term brought by a later member lets further facts join.
    let categories = vec![FactCategory::Knowledge, FactCategory::Goal, FactCategory::Behavior];
    let terms = vec![texts(&["alpha"]), texts(&["alpha", "beta"]), texts(&["beta"])];
    assert_eq!(cluster_facts(&categories, &terms), vec![vec![0, 1, 2]]);
    assert!(cluster_facts(&Vec::new(), &Vec::new()).is_empty());
}

#[test]
fn items_are_ordered_newest_first_keeping_ties_in_order() {
    let at = |secs: i64| UtcTimestamp { secs, nanos: 0 };
    assert_eq!(newest_first_positions(&vec![at(10), at(30), at(20), at(30)]), vec![1, 3, 2, 0]);
    assert_eq!(newest_first_positions(&vec![UtcTimestamp { secs: 5, nanos: 1 }, UtcTimestamp { secs: 5, nanos: 2 }]), vec![1, 0]);
    assert_eq!(newest_first_positions(&Vec::new()), Vec::<usize>::new());
}

#[test]
fn segmented_retrieval_keeps_the_newest_recent_facts_first() {
    let counter = SimpleTokenCounter::with_defaults();
    // Each recent fact takes 2 tokens; only two fit, and the two newest are kept.
    let recent = vec![dated("oldest!", 1), dated("newest!", 3), dated("middle!", 2)];
    let working = vec![dated("abc", 5), dated("xyz", 9)];
    let r = retrieve_segmented_context(&recent, &working, &Vec::new(), 0, &Vec::new(), 5, &counter);
    assert_eq!(r.recent, vec![1, 2]);
    assert_eq!(r.working, vec![1]);
    assert_eq!(r.archived, Vec::<usize>::new());
    assert_eq!(r.ranked_kept, 0);
    assert_eq!(r.total_tokens, 5);
}

#[test]
fn segmented_retrieval_falls_back_to_ranked_facts_when_segments_are_empty() {
    let counter = SimpleTokenCounter::with_defaults();
    let ranked = texts(&["abcdefg", "hijklmn", "opqrstu"]);
    let r = retrieve_segmented_context(&Vec::new(), &Vec::new(), &Vec::new(), 0, &ranked, 5, &counter);
    assert_eq!(r.ranked_kept, 2);
    assert_eq!(r.total_tokens, 4);
    assert!(r.recent.is_empty() && r.working.is_empty() && r.archived.is_empty());
    // An archived entry that no query ranked still means the segments hold content.
    let s = retrieve_segmented_context(&Vec::new(), &Vec::new(), &Vec::new(), 1, &ranked, 5, &counter);
    assert_eq!(s.ranked_kept, 0);
    assert_eq!(s.total_tokens, 0);
}

#[test]
fn budgets_work_from_the_counts_of_any_token_counter() {
    let fill = fill_by_counts(&vec![3, 4, 1], 7);
    assert_eq!((fill.facts_included, fill.total_tokens, fill.facts_excluded), (2, 7, 1));
    assert_eq!(fill_by_counts(&vec![0, 0], 0).facts_included, 0);
    let at = |secs: i64| UtcTimestamp { secs, nanos: 0 };
    // Recent items made at 1, 3, 2 taking 5, 2, 2 tokens: newest first they take 2, 2, 5.
    let r = retrieve_segmented_by_counts(&vec![at(1), at(3), at(2)], &vec![5, 2, 2], &Vec::new(), &Vec::new(), &vec![9, 3], 2, &Vec::new(), 8);
    assert_eq!(r.recent, vec![1, 2]);
    assert_eq!(r.archived, vec![1]);
    assert_eq!(r.total_tokens, 7);
    let entry = ArchivedEntryText { summary: "Earlier".to_string(), key_facts: texts(&["a", "b"]) };
    assert_eq!(entry.budget_text(), "Earlier a b");
}

#[test]
fn test_decode_legacy_json() {
    let legacy_json = r#"["fact1", "fact2", "fact3"]"#;
    let text = memory_json_text(legacy_json).unwrap();
    // The legacy list decodes to a document of the current version with no structured facts.
    assert_eq!(older_memory_fact_texts(&text), Ok(Vec::new()));
    assert_eq!(harness_state::memory::MEMORY_DOCUMENT_SCHEMA_VERSION, 2);
    assert!(MemoryUserProfile::default().work_context.is_none());
}

#[test]
fn test_format_segmented_memory_includes_archived_key_facts() {
    let counter = SimpleTokenCounter::with_defaults();
    let entry = ArchivedEntryText {
        summary: "Release schedule".to_string(),
        key_facts: texts(&["Deployment window is Friday 18:00 UTC"]),
    };
    // The document holds this one archived entry, which the query ranks first.
    let ranked = vec![entry];
    let r = retrieve_segmented_context(&Vec::new(), &Vec::new(), &ranked, 1, &Vec::new(), 100, &counter);
    assert_eq!(r.archived, vec![0]);
    let kept: Vec<ArchivedEntryText> = r.archived.iter().map(|&p| ranked[p].clone()).collect();
    let formatted = format_segmented_memory(&Vec::new(), &Vec::new(), &kept);
    assert!(formatted.contains("<archived>"));
    assert!(formatted.contains("Deployment window is Friday 18:00 UTC"));
}
