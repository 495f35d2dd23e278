use harness_state::memory::FactCategory;
use harness_state::memory_conflicts::{contains_text, detect_conflict, words_of, ConflictRules};

fn strings(items: &[&str]) -> Vec<String> {
    items.iter().map(|s| s.to_string()).collect()
}

fn default_rules() -> ConflictRules {
    ConflictRules {
        negation_words: strings(&["不", "没", "无", "非", "un", "not", "no", "never"]),
        location_keywords: strings(&["北京", "上海", "广州", "深圳", "杭州", "Beijing", "Shanghai", "Guangzhou", "Shenzhen", "Hangzhou"]),
        similarity_num: 3,
        similarity_den: 10,
    }
}

#[test]
fn test_detect_negation_conflict() {
    let rules = default_rules();
    assert!(detect_conflict(&rules, "用户喜欢 Python", FactCategory::Preference, "用户不喜欢 Python", FactCategory::Preference));
}

#[test]
fn places_and_similar_facts_of_one_category_conflict() {
    let rules = default_rules();
    assert!(detect_conflict(&rules, "Lives in Beijing", FactCategory::Context, "Lives in Shanghai", FactCategory::Knowledge));
    assert!(!detect_conflict(&rules, "Lives in Beijing", FactCategory::Context, "Works in Beijing", FactCategory::Knowledge));
    // Two of four distinct words in common: 1/2 > 3/10.
    assert!(detect_conflict(&rules, "likes green tea", FactCategory::Preference, "likes black tea", FactCategory::Preference));
    assert!(!detect_conflict(&rules, "likes green tea", FactCategory::Preference, "likes black tea", FactCategory::Goal));
    assert!(!detect_conflict(&rules, "", FactCategory::Goal, "", FactCategory::Goal));
}

#[test]
fn words_and_substrings() {
    assert_eq!(words_of("  a b  a\tc "), strings(&["a", "b", "c"]));
    assert!(words_of("   ").is_empty());
    assert!(contains_text("用户不喜欢", "不"));
    assert!(contains_text("abc", ""));
    assert!(!contains_text("ab", "abc"));
}
