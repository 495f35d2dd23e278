//! Memory system basics: fact categories, token counting, injection settings and the
//! counters the memory system keeps.

use vstd::prelude::*;
use crate::text::{lowercase, to_lowercase};

verus! {

/// Schema version of stored memory documents.
pub const MEMORY_DOCUMENT_SCHEMA_VERSION: u32 = 2;

/// Characters per token assumed when counting tokens.
pub const DEFAULT_CHARS_PER_TOKEN: usize = 4;

/// Attempts made at an LLM call before giving up.
pub const MAX_LLM_RETRY_ATTEMPTS: usize = 3;

/// Seconds an LLM call may take.
pub const DEFAULT_LLM_TIMEOUT_SECS: u64 = 30;

/// What a fact is about.
#[derive(Debug, Clone, Copy, PartialEq, Eq, Structural)]
pub enum FactCategory {
    /// User preferences (tools, styles, methods).
    Preference,
    /// Professional knowledge and technical domains.
    Knowledge,
    /// Background information (work, projects, location).
    Context,
    /// Behavioral patterns and work habits.
    Behavior,
    /// Goals and plans.
    Goal,
}

/// The category's name.
pub open spec fn category_name(c: FactCategory) -> Seq<char> {
    match c {
        FactCategory::Preference => "preference"@,
        FactCategory::Knowledge => "knowledge"@,
        FactCategory::Context => "context"@,
        FactCategory::Behavior => "behavior"@,
        FactCategory::Goal => "goal"@,
    }
}

/// The category a name denotes; unknown names denote knowledge.
pub open spec fn category_of_name(name: Seq<char>) -> FactCategory {
    if name == "preference"@ {
        FactCategory::Preference
    } else if name == "knowledge"@ {
        FactCategory::Knowledge
    } else if name == "context"@ {
        FactCategory::Context
    } else if name == "behavior"@ {
        FactCategory::Behavior
    } else if name == "goal"@ {
        FactCategory::Goal
    } else {
        FactCategory::Knowledge
    }
}

impl Default for FactCategory {
    fn default() -> (r: Self)
        ensures
            r == FactCategory::Knowledge,
    {
        FactCategory::Knowledge
    }
}

impl FactCategory {
    /// The category's name.
    pub fn as_str(&self) -> (r: &'static str)
        ensures
            r@ == category_name(*self),
    {
        match self {
            FactCategory::Preference => "preference",
            FactCategory::Knowledge => "knowledge",
            FactCategory::Context => "context",
            FactCategory::Behavior => "behavior",
            FactCategory::Goal => "goal",
        }
    }

    /// The category an extracted fact names, compared without regard to case; unknown
    /// names give knowledge.
    pub fn from_label(label: &str) -> (r: Self)
        ensures
            r == category_of_name(lowercase(label@)),
    {
        let l = to_lowercase(label);
        let s = l.as_str();
        if crate::text::str_eq(s, "preference") {
            FactCategory::Preference
        } else if crate::text::str_eq(s, "knowledge") {
            FactCategory::Knowledge
        } else if crate::text::str_eq(s, "context") {
            FactCategory::Context
        } else if crate::text::str_eq(s, "behavior") {
            FactCategory::Behavior
        } else if crate::text::str_eq(s, "goal") {
            FactCategory::Goal
        } else {
            FactCategory::Knowledge
        }
    }
}

/// Which parts of a memory document are injected into prompts, and how many tokens
/// they may take.
#[derive(Debug, Clone, Copy, PartialEq, Eq, Structural)]
pub struct MemoryInjectionConfig {
    pub max_tokens: usize,
    pub include_user_context: bool,
    pub include_history: bool,
    pub include_facts: bool,
    pub facts_only: bool,
}

impl Default for MemoryInjectionConfig {
    fn default() -> (r: Self)
        ensures
            r.max_tokens == 2000,
            r.include_user_context,
            r.include_history,
            r.include_facts,
            !r.facts_only,
    {
        MemoryInjectionConfig {
            max_tokens: 2000,
            include_user_context: true,
            include_history: true,
            include_facts: true,
            facts_only: false,
        }
    }
}

/// Number of bytes of a character in UTF-8.
pub open spec fn utf8_width(c: char) -> nat {
    if (c as u32) < 0x80 {
        1
    } else if (c as u32) < 0x800 {
        2
    } else if (c as u32) < 0x10000 {
        3
    } else {
        4
    }
}

/// Number of bytes of a text in UTF-8 (what `str::len` returns).
pub open spec fn utf8_len(s: Seq<char>) -> nat
    decreases s.len(),
{
    if s.len() == 0 {
        0
    } else {
        utf8_len(s.drop_last()) + utf8_width(s.last())
    }
}

/// The UTF-8 length of a text, as `str::len` reports it.
pub fn byte_len(s: &str) -> (r: usize)
    requires
        utf8_len(s@) <= usize::MAX,
    ensures
        r == utf8_len(s@),
{
    let n = s.unicode_len();
    let mut total: usize = 0;
    let mut i: usize = 0;
    while i < n
        invariant
            n == s@.len(),
            i <= n,
            total == utf8_len(s@.take(i as int)),
            utf8_len(s@) <= usize::MAX,
        decreases n - i,
    {
        let c = s.get_char(i);
        let w: usize = if (c as u32) < 0x80 {
            1
        } else if (c as u32) < 0x800 {
            2
        } else if (c as u32) < 0x10000 {
            3
        } else {
            4
        };
        proof {
            assert(s@.take(i + 1).drop_last() =~= s@.take(i as int));
            lemma_utf8_len_prefix(s@, i + 1);
        }
        total = total + w;
        i = i + 1;
    }
    assert(s@.take(n as int) =~= s@);
    total
}

/// A prefix is no longer in bytes than the text.
pub proof fn lemma_utf8_len_prefix(s: Seq<char>, k: int)
    requires
        0 <= k <= s.len(),
    ensures
        utf8_len(s.take(k)) <= utf8_len(s),
    decreases s.len() - k,
{
    if k < s.len() {
        lemma_utf8_len_prefix(s, k + 1);
        assert(s.take(k + 1).drop_last() =~= s.take(k));
    } else {
        assert(s.take(k) =~= s);
    }
}

/// Counts the tokens of a text for budgeting memory injection; users may bring their own
/// counter. The budgeting functions take the counts it gives (`fill_by_counts`,
/// `retrieve_segmented_by_counts`).
pub trait TokenCounter {
    /// Whether this counter is set up to count.
    spec fn can_count(&self) -> bool;

    /// The number of tokens `text` takes.
    fn count_tokens(&self, text: &str) -> usize
        requires
            self.can_count(),
            utf8_len(text@) <= usize::MAX,
    ;
}

/// A token counter that takes every `chars_per_token` bytes for one token.
#[derive(Debug, Clone, Copy, PartialEq, Eq, Structural)]
pub struct SimpleTokenCounter {
    pub chars_per_token: usize,
}

impl SimpleTokenCounter {
    pub fn new(chars_per_token: usize) -> (r: Self)
        ensures
            r.chars_per_token == chars_per_token,
    {
        SimpleTokenCounter { chars_per_token }
    }

    pub fn with_defaults() -> (r: Self)
        ensures
            r.chars_per_token == DEFAULT_CHARS_PER_TOKEN,
    {
        Self::new(DEFAULT_CHARS_PER_TOKEN)
    }

    /// The UTF-8 length of `text` divided (rounding down) by `chars_per_token`.
    pub fn tokens_of(&self, text: &str) -> (r: usize)
        requires
            self.chars_per_token > 0,
            utf8_len(text@) <= usize::MAX,
        ensures
            r == utf8_len(text@) / (self.chars_per_token as nat),
    {
        byte_len(text) / self.chars_per_token
    }
}

impl TokenCounter for SimpleTokenCounter {
    open spec fn can_count(&self) -> bool {
        self.chars_per_token > 0
    }

    /// The UTF-8 length of `text` divided (rounding down) by `chars_per_token`.
    fn count_tokens(&self, text: &str) -> (r: usize)
        ensures
            r == utf8_len(text@) / (self.chars_per_token as nat),
    {
        self.tokens_of(text)
    }
}

/// Cache occupancy of a memory store.
#[derive(Debug, Clone, Copy, PartialEq, Eq, Structural)]
pub struct CacheStats {
    pub size: usize,
    pub enabled: bool,
}

/// What one pass of fact management did.
#[derive(Debug, Clone, Copy, PartialEq, Eq, Structural)]
pub struct FactStats {
    pub total_facts: usize,
    pub duplicates_removed: usize,
    pub conflicts_resolved: usize,
    pub facts_evicted: usize,
}

impl Default for FactStats {
    fn default() -> (r: Self)
        ensures
            r.total_facts == 0,
            r.duplicates_removed == 0,
            r.conflicts_resolved == 0,
            r.facts_evicted == 0,
    {
        FactStats { total_facts: 0, duplicates_removed: 0, conflicts_resolved: 0, facts_evicted: 0 }
    }
}

/// What one fact extraction did to a thread's memory.
#[derive(Debug, Clone, Copy, PartialEq, Eq, Structural)]
pub struct FactExtractionResult {
    pub facts_extracted: usize,
    pub facts_removed: usize,
    pub conflicts_resolved: usize,
    pub facts_evicted: usize,
    pub total_facts: usize,
}

/// Counters of the memory system.
#[derive(Debug, Clone, Copy, PartialEq, Eq, Structural)]
pub struct MemorySystemStats {
    pub total_facts: usize,
    pub facts_extracted: usize,
    pub facts_merged: usize,
    pub conflicts_resolved: usize,
    pub cache_hits: usize,
}

impl Default for MemorySystemStats {
    fn default() -> (r: Self)
        ensures
            r.total_facts == 0,
            r.facts_extracted == 0,
            r.facts_merged == 0,
            r.conflicts_resolved == 0,
            r.cache_hits == 0,
    {
        MemorySystemStats {
            total_facts: 0,
            facts_extracted: 0,
            facts_merged: 0,
            conflicts_resolved: 0,
            cache_hits: 0,
        }
    }
}

impl MemorySystemStats {
    /// A thread's memory was loaded with `total_facts` facts.
    pub fn record_load(&mut self, total_facts: usize)
        ensures
            *final(self) == (MemorySystemStats { total_facts, ..*old(self) }),
    {
        self.total_facts = total_facts;
    }

    /// An extraction added `extracted` facts and resolved `conflicts` conflicts.
    pub fn record_extraction(&mut self, extracted: usize, conflicts: usize)
        requires
            old(self).facts_extracted + extracted <= usize::MAX,
            old(self).conflicts_resolved + conflicts <= usize::MAX,
        ensures
            *final(self) == (MemorySystemStats {
                facts_extracted: (old(self).facts_extracted + extracted) as usize,
                conflicts_resolved: (old(self).conflicts_resolved + conflicts) as usize,
                ..*old(self)
            }),
    {
        self.facts_extracted = self.facts_extracted + extracted;
        self.conflicts_resolved = self.conflicts_resolved + conflicts;
    }

    /// A merge produced a profile of `merged` facts and resolved `conflicts` conflicts.
    pub fn record_merge(&mut self, merged: usize, conflicts: usize)
        requires
            old(self).conflicts_resolved + conflicts <= usize::MAX,
        ensures
            *final(self) == (MemorySystemStats {
                facts_merged: merged,
                conflicts_resolved: (old(self).conflicts_resolved + conflicts) as usize,
                ..*old(self)
            }),
    {
        self.facts_merged = merged;
        self.conflicts_resolved = self.conflicts_resolved + conflicts;
    }
}

impl FactExtractionResult {
    /// The result of an extraction that found `extracted` facts and `removed` facts to
    /// drop, after management reported `managed`, leaving `total_facts` facts.
    pub fn new(extracted: usize, removed: usize, managed: FactStats, total_facts: usize) -> (r: Self)
        ensures
            r.facts_extracted == extracted,
            r.facts_removed == removed,
            r.conflicts_resolved == managed.conflicts_resolved,
            r.facts_evicted == managed.facts_evicted,
            r.total_facts == total_facts,
    {
        FactExtractionResult {
            facts_extracted: extracted,
            facts_removed: removed,
            conflicts_resolved: managed.conflicts_resolved,
            facts_evicted: managed.facts_evicted,
            total_facts,
        }
    }
}

} // verus!
