//! How memory is written into a system prompt: ranked facts kept while they fit a token
//! budget, the numbered fact block, and the `<memory>` block of sections and facts.

use vstd::prelude::*;
use crate::memory::{category_name, utf8_len, FactCategory, MemoryInjectionConfig, SimpleTokenCounter};
use crate::memory_conflicts::has_substring;
use crate::memory_profile::{joined_lines, MemoryHistory, MemoryUserProfile};
use crate::numbers::{decimal, push_decimal};

verus! {

/// The tokens a fact line takes: its content and a line break, counted by `chars_per_token`.
pub open spec fn fact_line_tokens(content: Seq<char>, chars_per_token: nat) -> int {
    ((utf8_len(content) + 1) / chars_per_token) as int
}

/// The token counts of the fact lines, in rank order.
pub open spec fn fact_tokens(contents: Seq<String>, chars_per_token: nat) -> Seq<int> {
    contents.map_values(|c: String| fact_line_tokens(c@, chars_per_token))
}

/// How many leading lines fit when each is taken while the lines so far and it stay
/// within `budget`, stopping at the first that does not fit.
pub open spec fn greedy_fill(tokens: Seq<int>, budget: int) -> nat
    decreases tokens.len(),
{
    if tokens.len() == 0 {
        0
    } else if tokens[0] <= budget {
        1 + greedy_fill(tokens.drop_first(), budget - tokens[0])
    } else {
        0
    }
}

/// The sum of the first `k` counts.
pub open spec fn tokens_sum(tokens: Seq<int>, k: int) -> int
    decreases k,
{
    if k <= 0 {
        0
    } else {
        tokens_sum(tokens, k - 1) + tokens[k - 1]
    }
}

/// What fits a token budget: how many of the ranked facts are kept, the tokens they take,
/// and how many are left out.
#[derive(Debug, Clone, Copy, PartialEq, Eq, Structural)]
pub struct TokenBudgetFill {
    pub facts_included: usize,
    pub total_tokens: usize,
    pub facts_excluded: usize,
}

pub(crate) proof fn lemma_greedy_fill_bound(tokens: Seq<int>, budget: int)
    ensures
        greedy_fill(tokens, budget) <= tokens.len(),
    decreases tokens.len(),
{
    if tokens.len() > 0 && tokens[0] <= budget {
        lemma_greedy_fill_bound(tokens.drop_first(), budget - tokens[0]);
    }
}

/// Token counts as integers.
pub open spec fn counts_as_ints(counts: Seq<usize>) -> Seq<int> {
    counts.map_values(|t: usize| t as int)
}

/// The tokens of each fact line (`content` and a line break) by `counter`.
pub(crate) fn line_token_counts(contents: &Vec<String>, counter: &SimpleTokenCounter) -> (r: Vec<usize>)
    requires
        counter.chars_per_token > 0,
        forall|i: int| 0 <= i < contents@.len() ==> utf8_len(#[trigger] contents@[i]@) < usize::MAX,
    ensures
        counts_as_ints(r@) == fact_tokens(contents@, counter.chars_per_token as nat),
{
    let mut out: Vec<usize> = Vec::new();
    let mut i: usize = 0;
    while i < contents.len()
        invariant
            i <= contents@.len(),
            counter.chars_per_token > 0,
            forall|j: int| 0 <= j < contents@.len() ==> utf8_len(#[trigger] contents@[j]@) < usize::MAX,
            counts_as_ints(out@) == fact_tokens(contents@.take(i as int), counter.chars_per_token as nat),
        decreases contents@.len() - i,
    {
        let n = crate::memory::byte_len(contents[i].as_str());
        let ghost before = counts_as_ints(out@);
        let t = (n + 1) / counter.chars_per_token;
        out.push(t);
        assert(counts_as_ints(out@) =~= before.push(t as int));
        assert(fact_tokens(contents@.take(i + 1), counter.chars_per_token as nat) =~= fact_tokens(contents@.take(i as int), counter.chars_per_token as nat).push(t as int));
        i = i + 1;
    }
    assert(contents@.take(contents@.len() as int) =~= contents@);
    out
}

/// Keeps the leading ranked facts, given by the tokens each takes in rank order, while
/// the tokens taken so far fit `max_tokens`; the first fact that does not fit ends the run.
/// With no facts or a zero budget nothing is kept. The counts may come from any token
/// counter.
pub fn fill_by_counts(tokens: &Vec<usize>, max_tokens: usize) -> (r: TokenBudgetFill)
    ensures
        r.facts_included == (if tokens@.len() == 0 || max_tokens == 0 {
            0
        } else {
            greedy_fill(counts_as_ints(tokens@), max_tokens as int)
        }),
        r.total_tokens == tokens_sum(counts_as_ints(tokens@), r.facts_included as int),
        r.total_tokens <= max_tokens,
        r.facts_excluded == tokens@.len() - r.facts_included,
{
    let ghost t = counts_as_ints(tokens@);
    if tokens.len() == 0 || max_tokens == 0 {
        return TokenBudgetFill { facts_included: 0, total_tokens: 0, facts_excluded: tokens.len() };
    }
    let mut total: usize = 0;
    let mut i: usize = 0;
    assert(t.subrange(0, t.len() as int) =~= t);
    while i < tokens.len()
        invariant_except_break
            i <= tokens@.len(),
            t == counts_as_ints(tokens@),
            total <= max_tokens,
            total == tokens_sum(t, i as int),
            greedy_fill(t, max_tokens as int) == i + greedy_fill(t.subrange(i as int, t.len() as int), max_tokens - total),
        ensures
            i <= tokens@.len(),
            total <= max_tokens,
            total == tokens_sum(t, i as int),
            greedy_fill(t, max_tokens as int) == i,
        decreases tokens@.len() - i,
    {
        let ghost rest = t.subrange(i as int, t.len() as int);
        assert(rest[0] == tokens@[i as int]);
        if tokens[i] <= max_tokens - total {
            assert(rest.drop_first() =~= t.subrange(i + 1, t.len() as int));
            total = total + tokens[i];
            i = i + 1;
        } else {
            break;
        }
    }
    proof {
        if i == tokens@.len() {
            assert(t.subrange(i as int, t.len() as int) =~= Seq::<int>::empty());
        }
        lemma_greedy_fill_bound(t, max_tokens as int);
    }
    TokenBudgetFill { facts_included: i, total_tokens: total, facts_excluded: tokens.len() - i }
}

/// Keeps ranked facts, given by their contents in rank order, while the lines taken so
/// far fit `max_tokens`; the first fact that does not fit ends the run. With no facts or
/// a zero budget nothing is kept.
pub fn fill_token_budget(contents: &Vec<String>, max_tokens: usize, counter: &SimpleTokenCounter) -> (r: TokenBudgetFill)
    requires
        counter.chars_per_token > 0,
        forall|i: int| 0 <= i < contents@.len() ==> utf8_len(#[trigger] contents@[i]@) < usize::MAX,
    ensures
        r.facts_included == (if contents@.len() == 0 || max_tokens == 0 {
            0
        } else {
            greedy_fill(fact_tokens(contents@, counter.chars_per_token as nat), max_tokens as int)
        }),
        r.total_tokens == tokens_sum(fact_tokens(contents@, counter.chars_per_token as nat), r.facts_included as int),
        r.total_tokens <= max_tokens,
        r.facts_excluded == contents@.len() - r.facts_included,
{
    let counts = line_token_counts(contents, counter);
    fill_by_counts(&counts, max_tokens)
}

/// A kept fact as the injected block shows it.
#[derive(Debug, Clone, PartialEq, Eq)]
pub struct InjectedFact {
    pub category: FactCategory,
    pub content: String,
}

/// The numbered lines of the kept facts, from `start` on.
pub open spec fn numbered_fact_lines(facts: Seq<InjectedFact>) -> Seq<char>
    decreases facts.len(),
{
    if facts.len() == 0 {
        Seq::empty()
    } else {
        numbered_fact_lines(facts.drop_last()) + decimal(facts.len()) + ". ["@ + category_name(facts.last().category)
            + "] "@ + facts.last().content@ + "\n"@
    }
}

/// The fact block injected into prompts: nothing when no fact is kept; else
/// `Memory Facts:`, one numbered line `N. [category] content` per kept fact, and a note
/// of how many facts the budget left out when there are any.
pub open spec fn injected_facts_text(facts: Seq<InjectedFact>, excluded: nat) -> Seq<char> {
    if facts.len() == 0 {
        Seq::empty()
    } else {
        "Memory Facts:\n"@ + numbered_fact_lines(facts) + if excluded > 0 {
            "\n(... and "@ + decimal(excluded) + " more facts omitted due to token budget)"@
        } else {
            Seq::empty()
        }
    }
}

/// Writes the fact block of the kept facts, in rank order, noting how many the budget
/// left out.
pub fn format_injected_facts(facts: &Vec<InjectedFact>, excluded: usize) -> (r: String)
    ensures
        r@ == injected_facts_text(facts@, excluded as nat),
{
    if facts.len() == 0 {
        return String::new();
    }
    let mut out = "Memory Facts:\n".to_string();
    let mut i: usize = 0;
    while i < facts.len()
        invariant
            i <= facts@.len(),
            out@ == "Memory Facts:\n"@ + numbered_fact_lines(facts@.take(i as int)),
        decreases facts@.len() - i,
    {
        let f = &facts[i];
        push_decimal(&mut out, (i + 1) as u64);
        out.append(". [");
        out.append(f.category.as_str());
        out.append("] ");
        out.append(f.content.as_str());
        out.append("\n");
        assert(facts@.take(i + 1).drop_last() =~= facts@.take(i as int));
        assert(facts@.take(i + 1).last() == facts@[i as int]);
        i = i + 1;
    }
    assert(facts@.take(facts@.len() as int) =~= facts@);
    if excluded > 0 {
        out.append("\n(... and ");
        push_decimal(&mut out, excluded as u64);
        out.append(" more facts omitted due to token budget)");
    }
    out
}

/// A section wrapped in its tag, when it is set.
pub open spec fn tagged(tag: Seq<char>, s: Option<String>) -> Seq<Seq<char>> {
    match s {
        Some(t) => seq!["<"@ + tag + ">"@ + t@ + "</"@ + tag + ">"@],
        None => Seq::empty(),
    }
}

/// The parts of the `<memory>` block: the user's sections and the history's, each when
/// configured and set, then the fact block when configured and not empty.
pub open spec fn memory_parts(
    user: MemoryUserProfile,
    history: MemoryHistory,
    config: MemoryInjectionConfig,
    facts_text: Seq<char>,
) -> Seq<Seq<char>> {
    (if config.include_user_context {
        tagged("work_context"@, user.work_context) + tagged("personal_context"@, user.personal_context) + tagged(
            "top_of_mind"@,
            user.top_of_mind,
        )
    } else {
        Seq::empty()
    }) + (if config.include_history {
        tagged("recent_months"@, history.recent_months) + tagged("earlier_context"@, history.earlier_context)
            + tagged("long_term_background"@, history.long_term_background)
    } else {
        Seq::empty()
    }) + (if config.include_facts && facts_text.len() > 0 {
        seq!["<facts>\n"@ + facts_text + "</facts>"@]
    } else {
        Seq::empty()
    })
}

/// The memory injected into a system prompt: the fact block alone when configured so;
/// else the parts joined by `\n` inside `<memory>` lines, or nothing when there are none.
pub open spec fn complete_memory_text(
    user: MemoryUserProfile,
    history: MemoryHistory,
    config: MemoryInjectionConfig,
    facts_text: Seq<char>,
) -> Seq<char> {
    if config.facts_only {
        facts_text
    } else if memory_parts(user, history, config, facts_text).len() == 0 {
        Seq::empty()
    } else {
        "<memory>\n"@ + joined_lines(memory_parts(user, history, config, facts_text)) + "\n</memory>"@
    }
}

fn push_tagged(parts: &mut Vec<String>, tag: &str, s: &Option<String>)
    ensures
        final(parts)@.map_values(|l: String| l@) == old(parts)@.map_values(|l: String| l@) + tagged(tag@, *s),
{
    match s {
        Some(t) => {
            let mut line = "<".to_string();
            line.append(tag);
            line.append(">");
            line.append(t.as_str());
            line.append("</");
            line.append(tag);
            line.append(">");
            let ghost before = parts@.map_values(|l: String| l@);
            parts.push(line);
            assert(parts@.map_values(|l: String| l@) =~= before + tagged(tag@, *s));
        },
        None => {
            assert(parts@.map_values(|l: String| l@) =~= parts@.map_values(|l: String| l@) + tagged(tag@, *s));
        },
    }
}

/// The memory of a document as injected into a system prompt, given the fact block
/// written from its ranked facts.
pub fn format_complete_memory(
    user: &MemoryUserProfile,
    history: &MemoryHistory,
    config: &MemoryInjectionConfig,
    facts_text: &str,
) -> (r: String)
    ensures
        r@ == complete_memory_text(*user, *history, *config, facts_text@),
{
    if config.facts_only {
        return facts_text.to_string();
    }
    let mut parts: Vec<String> = Vec::new();
    assert(parts@.map_values(|l: String| l@) =~= Seq::<Seq<char>>::empty());
    if config.include_user_context {
        push_tagged(&mut parts, "work_context", &user.work_context);
        push_tagged(&mut parts, "personal_context", &user.personal_context);
        push_tagged(&mut parts, "top_of_mind", &user.top_of_mind);
    }
    let ghost after_user = parts@.map_values(|l: String| l@);
    if config.include_history {
        push_tagged(&mut parts, "recent_months", &history.recent_months);
        push_tagged(&mut parts, "earlier_context", &history.earlier_context);
        push_tagged(&mut parts, "long_term_background", &history.long_term_background);
    }
    let ghost after_history = parts@.map_values(|l: String| l@);
    if config.include_facts && facts_text.unicode_len() > 0 {
        let mut block = "<facts>\n".to_string();
        block.append(facts_text);
        block.append("</facts>");
        parts.push(block);
        assert(parts@.map_values(|l: String| l@) =~= after_history.push(block@));
    }
    assert(parts@.map_values(|l: String| l@) =~= memory_parts(*user, *history, *config, facts_text@));
    if parts.len() == 0 {
        return String::new();
    }
    let mut out = "<memory>\n".to_string();
    let joined = crate::memory_profile::join_lines(&parts);
    out.append(joined.as_str());
    out.append("\n</memory>");
    out
}

/// A system prompt with the memory text after a blank line, or the prompt alone when
/// the memory text is empty.
pub fn inject_memory_to_prompt(system_prompt: &str, memory_text: &str) -> (r: String)
    ensures
        r@ == (if memory_text@.len() == 0 {
            system_prompt@
        } else {
            system_prompt@ + "\n\n"@ + memory_text@
        }),
{
    let mut out = system_prompt.to_string();
    if memory_text.unicode_len() > 0 {
        out.append("\n\n");
        out.append(memory_text);
    }
    out
}

proof fn lemma_substring_within(p: Seq<char>, h: Seq<char>, q: Seq<char>, n: Seq<char>)
    requires
        has_substring(h, n),
    ensures
        has_substring(p + h + q, n),
{
    let i = choose|i: int| 0 <= i <= h.len() - n.len() && #[trigger] h.subrange(i, i + n.len()) == n;
    let whole = p + h + q;
    assert(whole.subrange(p.len() + i, p.len() + i + n.len()) =~= h.subrange(i, i + n.len()));
}

proof fn lemma_line_in_joined(lines: Seq<Seq<char>>, k: int)
    requires
        0 <= k < lines.len(),
    ensures
        has_substring(joined_lines(lines), lines[k]),
    decreases lines.len(),
{
    if lines.len() == 1 {
        assert(joined_lines(lines) == lines[0]);
        assert(joined_lines(lines).subrange(0, 0int + lines[0].len()) =~= lines[0]);
        assert(has_substring(joined_lines(lines), lines[k]));
    } else {
        let front = lines.drop_last();
        if k == lines.len() - 1 {
            reveal_strlit("\n");
            let j = joined_lines(lines);
            assert(j == joined_lines(front) + "\n"@ + lines.last());
            let at: int = joined_lines(front).len() as int + 1;
            assert(j.subrange(at, at + lines[k].len()) =~= lines[k]);
            assert(has_substring(j, lines[k]));
        } else {
            lemma_line_in_joined(front, k);
            assert(front[k] == lines[k]);
            lemma_substring_within(Seq::empty(), joined_lines(front), "\n"@ + lines.last(), lines[k]);
            assert(Seq::<char>::empty() + joined_lines(front) + ("\n"@ + lines.last()) =~= joined_lines(lines));
            assert(has_substring(joined_lines(lines), lines[k]));
        }
    }
}

proof fn lemma_part_in_memory_text(
    user: MemoryUserProfile,
    history: MemoryHistory,
    config: MemoryInjectionConfig,
    facts_text: Seq<char>,
    k: int,
)
    requires
        !config.facts_only,
        0 <= k < memory_parts(user, history, config, facts_text).len(),
    ensures
        has_substring(complete_memory_text(user, history, config, facts_text), memory_parts(user, history, config, facts_text)[k]),
{
    let parts = memory_parts(user, history, config, facts_text);
    lemma_line_in_joined(parts, k);
    lemma_substring_within("<memory>\n"@, joined_lines(parts), "\n</memory>"@, parts[k]);
}

proof fn lemma_work_context_tags()
    ensures
        "<work_context>"@ == "<"@ + "work_context"@ + ">"@,
        "</work_context>"@ == "</"@ + "work_context"@ + ">"@,
{
    reveal_strlit("<");
    reveal_strlit(">");
    reveal_strlit("</");
    reveal_strlit("work_context");
    reveal_strlit("<work_context>");
    reveal_strlit("</work_context>");
    assert("<work_context>"@ =~= "<"@ + "work_context"@ + ">"@);
    assert("</work_context>"@ =~= "</"@ + "work_context"@ + ">"@);
}

proof fn lemma_personal_context_tags()
    ensures
        "<personal_context>"@ == "<"@ + "personal_context"@ + ">"@,
        "</personal_context>"@ == "</"@ + "personal_context"@ + ">"@,
{
    reveal_strlit("<");
    reveal_strlit(">");
    reveal_strlit("</");
    reveal_strlit("personal_context");
    reveal_strlit("<personal_context>");
    reveal_strlit("</personal_context>");
    assert("<personal_context>"@ =~= "<"@ + "personal_context"@ + ">"@);
    assert("</personal_context>"@ =~= "</"@ + "personal_context"@ + ">"@);
}

proof fn lemma_top_of_mind_tags()
    ensures
        "<top_of_mind>"@ == "<"@ + "top_of_mind"@ + ">"@,
        "</top_of_mind>"@ == "</"@ + "top_of_mind"@ + ">"@,
{
    reveal_strlit("<");
    reveal_strlit(">");
    reveal_strlit("</");
    reveal_strlit("top_of_mind");
    reveal_strlit("<top_of_mind>");
    reveal_strlit("</top_of_mind>");
    assert("<top_of_mind>"@ =~= "<"@ + "top_of_mind"@ + ">"@);
    assert("</top_of_mind>"@ =~= "</"@ + "top_of_mind"@ + ">"@);
}

proof fn lemma_recent_months_tags()
    ensures
        "<recent_months>"@ == "<"@ + "recent_months"@ + ">"@,
        "</recent_months>"@ == "</"@ + "recent_months"@ + ">"@,
{
    reveal_strlit("<");
    reveal_strlit(">");
    reveal_strlit("</");
    reveal_strlit("recent_months");
    reveal_strlit("<recent_months>");
    reveal_strlit("</recent_months>");
    assert("<recent_months>"@ =~= "<"@ + "recent_months"@ + ">"@);
    assert("</recent_months>"@ =~= "</"@ + "recent_months"@ + ">"@);
}

proof fn lemma_earlier_context_tags()
    ensures
        "<earlier_context>"@ == "<"@ + "earlier_context"@ + ">"@,
        "</earlier_context>"@ == "</"@ + "earlier_context"@ + ">"@,
{
    reveal_strlit("<");
    reveal_strlit(">");
    reveal_strlit("</");
    reveal_strlit("earlier_context");
    reveal_strlit("<earlier_context>");
    reveal_strlit("</earlier_context>");
    assert("<earlier_context>"@ =~= "<"@ + "earlier_context"@ + ">"@);
    assert("</earlier_context>"@ =~= "</"@ + "earlier_context"@ + ">"@);
}

proof fn lemma_long_term_background_tags()
    ensures
        "<long_term_background>"@ == "<"@ + "long_term_background"@ + ">"@,
        "</long_term_background>"@ == "</"@ + "long_term_background"@ + ">"@,
{
    reveal_strlit("<");
    reveal_strlit(">");
    reveal_strlit("</");
    reveal_strlit("long_term_background");
    reveal_strlit("<long_term_background>");
    reveal_strlit("</long_term_background>");
    assert("<long_term_background>"@ =~= "<"@ + "long_term_background"@ + ">"@);
    assert("</long_term_background>"@ =~= "</"@ + "long_term_background"@ + ">"@);
}

proof fn lemma_front_index(a: Seq<Seq<char>>, b: Seq<Seq<char>>, k: int)
    requires
        0 <= k < a.len(),
    ensures
        (a + b)[k] == a[k],
{
}

proof fn lemma_back_index(a: Seq<Seq<char>>, b: Seq<Seq<char>>, k: int)
    requires
        0 <= k < b.len(),
    ensures
        (a + b)[a.len() + k] == b[k],
{
}

proof fn lemma_section_in_text(
    user: MemoryUserProfile,
    history: MemoryHistory,
    config: MemoryInjectionConfig,
    facts_text: Seq<char>,
    k: int,
    tag: Seq<char>,
    open: Seq<char>,
    close: Seq<char>,
    section: Option<String>,
)
    requires
        !config.facts_only,
        section is Some,
        0 <= k < memory_parts(user, history, config, facts_text).len(),
        memory_parts(user, history, config, facts_text)[k] == tagged(tag, section)[0],
        open == "<"@ + tag + ">"@,
        close == "</"@ + tag + ">"@,
    ensures
        has_substring(complete_memory_text(user, history, config, facts_text), open + section->0@ + close),
{
    let t = section->0@;
    assert(tagged(tag, section)[0] =~= open + t + close);
    lemma_part_in_memory_text(user, history, config, facts_text, k);
}

proof fn lemma_user_sections_in_text(
    user: MemoryUserProfile,
    history: MemoryHistory,
    config: MemoryInjectionConfig,
    facts_text: Seq<char>,
)
    requires
        !config.facts_only,
        config.include_user_context,
    ensures
        user.work_context is Some ==> has_substring(
            complete_memory_text(user, history, config, facts_text),
            "<work_context>"@ + user.work_context->0@ + "</work_context>"@,
        ),
        user.personal_context is Some ==> has_substring(
            complete_memory_text(user, history, config, facts_text),
            "<personal_context>"@ + user.personal_context->0@ + "</personal_context>"@,
        ),
        user.top_of_mind is Some ==> has_substring(
            complete_memory_text(user, history, config, facts_text),
            "<top_of_mind>"@ + user.top_of_mind->0@ + "</top_of_mind>"@,
        ),
{
    let parts = memory_parts(user, history, config, facts_text);
    let ua = tagged("work_context"@, user.work_context);
    let ub = tagged("personal_context"@, user.personal_context);
    let uc = tagged("top_of_mind"@, user.top_of_mind);
    let us = ua + ub + uc;
    let hs = if config.include_history {
        tagged("recent_months"@, history.recent_months) + tagged("earlier_context"@, history.earlier_context)
            + tagged("long_term_background"@, history.long_term_background)
    } else {
        Seq::empty()
    };
    let fs = if config.include_facts && facts_text.len() > 0 {
        seq!["<facts>\n"@ + facts_text + "</facts>"@]
    } else {
        Seq::empty()
    };
    assert(parts == us + hs + fs);
    if user.work_context is Some {
        lemma_front_index(ua, ub, 0);
        lemma_front_index(ua + ub, uc, 0);
        lemma_front_index(us, hs, 0);
        lemma_front_index(us + hs, fs, 0);
        lemma_work_context_tags();
        lemma_section_in_text(user, history, config, facts_text, 0, "work_context"@, "<work_context>"@, "</work_context>"@, user.work_context);
    }
    if user.personal_context is Some {
        let k: int = ua.len() as int;
        lemma_back_index(ua, ub, 0);
        lemma_front_index(ua + ub, uc, k);
        lemma_front_index(us, hs, k);
        lemma_front_index(us + hs, fs, k);
        lemma_personal_context_tags();
        lemma_section_in_text(user, history, config, facts_text, k, "personal_context"@, "<personal_context>"@, "</personal_context>"@, user.personal_context);
    }
    if user.top_of_mind is Some {
        let k: int = ua.len() as int + ub.len();
        lemma_back_index(ua + ub, uc, 0);
        lemma_front_index(us, hs, k);
        lemma_front_index(us + hs, fs, k);
        lemma_top_of_mind_tags();
        lemma_section_in_text(user, history, config, facts_text, k, "top_of_mind"@, "<top_of_mind>"@, "</top_of_mind>"@, user.top_of_mind);
    }
}

proof fn lemma_history_sections_in_text(
    user: MemoryUserProfile,
    history: MemoryHistory,
    config: MemoryInjectionConfig,
    facts_text: Seq<char>,
)
    requires
        !config.facts_only,
        config.include_history,
    ensures
        history.recent_months is Some ==> has_substring(
            complete_memory_text(user, history, config, facts_text),
            "<recent_months>"@ + history.recent_months->0@ + "</recent_months>"@,
        ),
        history.earlier_context is Some ==> has_substring(
            complete_memory_text(user, history, config, facts_text),
            "<earlier_context>"@ + history.earlier_context->0@ + "</earlier_context>"@,
        ),
        history.long_term_background is Some ==> has_substring(
            complete_memory_text(user, history, config, facts_text),
            "<long_term_background>"@ + history.long_term_background->0@ + "</long_term_background>"@,
        ),
{
    let parts = memory_parts(user, history, config, facts_text);
    let ua = tagged("work_context"@, user.work_context);
    let ub = tagged("personal_context"@, user.personal_context);
    let uc = tagged("top_of_mind"@, user.top_of_mind);
    let us = if config.include_user_context { ua + ub + uc } else { Seq::empty() };
    let ha = tagged("recent_months"@, history.recent_months);
    let hb = tagged("earlier_context"@, history.earlier_context);
    let hc = tagged("long_term_background"@, history.long_term_background);
    let hs = ha + hb + hc;
    let fs = if config.include_facts && facts_text.len() > 0 {
        seq!["<facts>\n"@ + facts_text + "</facts>"@]
    } else {
        Seq::empty()
    };
    assert(parts == us + hs + fs);
    if history.recent_months is Some {
        let k: int = us.len() as int;
        lemma_front_index(ha, hb, 0);
        lemma_front_index(ha + hb, hc, 0);
        lemma_back_index(us, hs, 0);
        lemma_front_index(us + hs, fs, k);
        lemma_recent_months_tags();
        lemma_section_in_text(user, history, config, facts_text, k, "recent_months"@, "<recent_months>"@, "</recent_months>"@, history.recent_months);
    }
    if history.earlier_context is Some {
        let j: int = ha.len() as int;
        let k: int = us.len() + j;
        lemma_back_index(ha, hb, 0);
        lemma_front_index(ha + hb, hc, j);
        lemma_back_index(us, hs, j);
        lemma_front_index(us + hs, fs, k);
        lemma_earlier_context_tags();
        lemma_section_in_text(user, history, config, facts_text, k, "earlier_context"@, "<earlier_context>"@, "</earlier_context>"@, history.earlier_context);
    }
    if history.long_term_background is Some {
        let j: int = ha.len() as int + hb.len();
        let k: int = us.len() + j;
        lemma_back_index(ha + hb, hc, 0);
        lemma_back_index(us, hs, j);
        lemma_front_index(us + hs, fs, k);
        lemma_long_term_background_tags();
        lemma_section_in_text(
            user,
            history,
            config,
            facts_text,
            k,
            "long_term_background"@,
            "<long_term_background>"@,
            "</long_term_background>"@,
            history.long_term_background,
        );
    }
}

/// Unless only the fact block is asked for, the injected memory holds each user section
/// that is set, wrapped in its tag, when user context is included; each history section
/// that is set, wrapped in its tag, when history is included; and the fact block inside
/// `<facts>` when facts are included and the block is not empty. When only the fact block
/// is asked for, the injected memory is that block.
pub proof fn law_memory_holds_each_set_section(
    user: MemoryUserProfile,
    history: MemoryHistory,
    config: MemoryInjectionConfig,
    facts_text: Seq<char>,
)
    ensures
        config.facts_only ==> complete_memory_text(user, history, config, facts_text) == facts_text,
        !config.facts_only && config.include_user_context && user.work_context is Some ==> has_substring(
            complete_memory_text(user, history, config, facts_text),
            "<work_context>"@ + user.work_context->0@ + "</work_context>"@,
        ),
        !config.facts_only && config.include_user_context && user.personal_context is Some ==> has_substring(
            complete_memory_text(user, history, config, facts_text),
            "<personal_context>"@ + user.personal_context->0@ + "</personal_context>"@,
        ),
        !config.facts_only && config.include_user_context && user.top_of_mind is Some ==> has_substring(
            complete_memory_text(user, history, config, facts_text),
            "<top_of_mind>"@ + user.top_of_mind->0@ + "</top_of_mind>"@,
        ),
        !config.facts_only && config.include_history && history.recent_months is Some ==> has_substring(
            complete_memory_text(user, history, config, facts_text),
            "<recent_months>"@ + history.recent_months->0@ + "</recent_months>"@,
        ),
        !config.facts_only && config.include_history && history.earlier_context is Some ==> has_substring(
            complete_memory_text(user, history, config, facts_text),
            "<earlier_context>"@ + history.earlier_context->0@ + "</earlier_context>"@,
        ),
        !config.facts_only && config.include_history && history.long_term_background is Some ==> has_substring(
            complete_memory_text(user, history, config, facts_text),
            "<long_term_background>"@ + history.long_term_background->0@ + "</long_term_background>"@,
        ),
        !config.facts_only && config.include_facts && facts_text.len() > 0 ==> has_substring(
            complete_memory_text(user, history, config, facts_text),
            "<facts>\n"@ + facts_text + "</facts>"@,
        ),
{
    if !config.facts_only {
        if config.include_user_context {
            lemma_user_sections_in_text(user, history, config, facts_text);
        }
        if config.include_history {
            lemma_history_sections_in_text(user, history, config, facts_text);
        }
        if config.include_facts && facts_text.len() > 0 {
            let parts = memory_parts(user, history, config, facts_text);
            let k: int = parts.len() - 1;
            assert(parts[k] == "<facts>\n"@ + facts_text + "</facts>"@);
            lemma_part_in_memory_text(user, history, config, facts_text, k);
        }
    }
}

/// Unless only the fact block is asked for, the injected memory is empty exactly when no
/// included user or history section is set and no included fact block has text; otherwise
/// it is one block that opens with a `<memory>` line and closes with a `</memory>` line.
pub proof fn law_memory_block_framing(
    user: MemoryUserProfile,
    history: MemoryHistory,
    config: MemoryInjectionConfig,
    facts_text: Seq<char>,
)
    ensures
        !config.facts_only ==> (complete_memory_text(user, history, config, facts_text).len() == 0 <==> {
            &&& (!config.include_user_context || (user.work_context is None && user.personal_context is None
                && user.top_of_mind is None))
            &&& (!config.include_history || (history.recent_months is None && history.earlier_context is None
                && history.long_term_background is None))
            &&& (!config.include_facts || facts_text.len() == 0)
        }),
        !config.facts_only && complete_memory_text(user, history, config, facts_text).len() > 0 ==> exists|mid: Seq<char>|
            complete_memory_text(user, history, config, facts_text) == "<memory>\n"@ + mid + "\n</memory>"@,
{
    if !config.facts_only {
        reveal_strlit("<memory>\n");
        let parts = memory_parts(user, history, config, facts_text);
        let ua = tagged("work_context"@, user.work_context);
        let ub = tagged("personal_context"@, user.personal_context);
        let uc = tagged("top_of_mind"@, user.top_of_mind);
        let ha = tagged("recent_months"@, history.recent_months);
        let hb = tagged("earlier_context"@, history.earlier_context);
        let hc = tagged("long_term_background"@, history.long_term_background);
        let us = if config.include_user_context { ua + ub + uc } else { Seq::empty() };
        let hs = if config.include_history { ha + hb + hc } else { Seq::empty() };
        let fs = if config.include_facts && facts_text.len() > 0 {
            seq!["<facts>\n"@ + facts_text + "</facts>"@]
        } else {
            Seq::empty()
        };
        assert(parts == us + hs + fs);
        assert(ua.len() == 0 <==> user.work_context is None);
        assert(ub.len() == 0 <==> user.personal_context is None);
        assert(uc.len() == 0 <==> user.top_of_mind is None);
        assert(ha.len() == 0 <==> history.recent_months is None);
        assert(hb.len() == 0 <==> history.earlier_context is None);
        assert(hc.len() == 0 <==> history.long_term_background is None);
        if parts.len() > 0 {
            let text = complete_memory_text(user, history, config, facts_text);
            assert(text == "<memory>\n"@ + joined_lines(parts) + "\n</memory>"@);
        }
    }
}

} // verus!
