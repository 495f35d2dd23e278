//! Prompt templates of the memory system and how they are filled in.

use vstd::prelude::*;
use crate::text::push_char;

verus! {

/// Prompt for extracting memory updates from a conversation; `{current_memory}` and
/// `{conversation}` are filled in.
pub const MEMORY_UPDATE_PROMPT: &'static str = "You maintain the long-term memory of an assistant about its user.

<current_memory>
{current_memory}
</current_memory>

<conversation>
{conversation}
</conversation>

Read the conversation and decide what the memory should learn from it. Answer with one JSON
object and nothing else, with these fields:

- \"user\": an object with \"work_context\", \"personal_context\" and \"top_of_mind\"; each is
  null or {\"summary\": string, \"should_update\": bool}.
- \"history\": an object with \"recent_months\", \"earlier_context\" and
  \"long_term_background\", each null or {\"summary\": string, \"should_update\": bool}.
- \"new_facts\" (the newFacts list): facts the conversation states or clearly implies, each
  {\"content\": string, \"category\": \"preference\" | \"knowledge\" | \"context\" | \"behavior\" |
  \"goal\", \"confidence\": number between 0 and 1}. Use 0.9 to 1.0 for facts stated outright,
  0.7 to 0.8 for facts strongly implied and 0.5 to 0.6 for inferred patterns.
- \"facts_to_remove\": ids of facts in the current memory that the conversation contradicts
  or makes obsolete.

Set should_update only where the summary changes. Do not repeat facts already in memory.
";

/// Prompt for summarizing a user profile from facts merged across threads; `{facts}` is
/// filled in.
pub const MERGE_PROFILE_PROMPT: &'static str = "Facts gathered about one user across several conversations:

<facts>
{facts}
</facts>

Summarize who the user is. Answer with one JSON object and nothing else, with these fields:

- \"profile_summary\": a few sentences describing the user.
- \"key_themes\": a list of short phrases naming the recurring topics.
- \"confidence\": a number between 0 and 1 saying how well the facts support the summary.
";

/// `s` with every occurrence of `pattern`, scanned from the left without overlap,
/// replaced by `with` (as `str::replace` does for a non-empty pattern).
pub open spec fn replaced(s: Seq<char>, pattern: Seq<char>, with: Seq<char>) -> Seq<char>
    recommends
        pattern.len() > 0,
    decreases s.len(),
{
    if pattern.len() == 0 || s.len() < pattern.len() {
        s
    } else if s.take(pattern.len() as int) == pattern {
        with + replaced(s.skip(pattern.len() as int), pattern, with)
    } else {
        seq![s[0]] + replaced(s.drop_first(), pattern, with)
    }
}

fn matches_at(s: &str, at: usize, pattern: &str) -> (r: bool)
    requires
        at <= s@.len(),
    ensures
        r == (s@.len() - at >= pattern@.len() && s@.skip(at as int).take(pattern@.len() as int) == pattern@),
{
    let n = s.unicode_len();
    let k = pattern.unicode_len();
    if n - at < k {
        return false;
    }
    let mut q: usize = 0;
    while q < k
        invariant
            n == s@.len(),
            k == pattern@.len(),
            at + k <= n,
            q <= k,
            forall|p: int| 0 <= p < q ==> s@[at + p] == pattern@[p],
        decreases k - q,
    {
        if s.get_char(at + q) != pattern.get_char(q) {
            assert(s@.skip(at as int).take(k as int)[q as int] != pattern@[q as int]);
            return false;
        }
        q = q + 1;
    }
    assert(s@.skip(at as int).take(k as int) =~= pattern@);
    true
}

/// `s` with every occurrence of `pattern` replaced by `with`.
pub fn replace_all(s: &str, pattern: &str, with: &str) -> (r: String)
    requires
        pattern@.len() > 0,
    ensures
        r@ == replaced(s@, pattern@, with@),
{
    let n = s.unicode_len();
    let k = pattern.unicode_len();
    let mut out = String::new();
    let mut i: usize = 0;
    assert(s@.skip(0) =~= s@);
    while i < n
        invariant
            n == s@.len(),
            k == pattern@.len(),
            k > 0,
            i <= n,
            out@ + replaced(s@.skip(i as int), pattern@, with@) == replaced(s@, pattern@, with@),
        decreases n - i,
    {
        let ghost rest = s@.skip(i as int);
        if matches_at(s, i, pattern) {
            out.append(with);
            assert(rest.skip(k as int) =~= s@.skip(i + k));
            assert(out@ + replaced(s@.skip(i + k), pattern@, with@) =~= replaced(s@, pattern@, with@));
            i = i + k;
        } else {
            push_char(&mut out, s.get_char(i));
            proof {
                lemma_replaced_short(rest, pattern@, with@);
            }
            assert(rest.drop_first() =~= s@.skip(i + 1));
            assert(out@ + replaced(s@.skip(i + 1), pattern@, with@) =~= replaced(s@, pattern@, with@));
            i = i + 1;
        }
    }
    assert(s@.skip(n as int) =~= Seq::<char>::empty());
    assert(out@ =~= replaced(s@, pattern@, with@));
    out
}

/// Where `pattern` does not start `s`, its first character is kept.
proof fn lemma_replaced_short(s: Seq<char>, pattern: Seq<char>, with: Seq<char>)
    requires
        s.len() > 0,
        pattern.len() > 0,
        !(s.len() >= pattern.len() && s.take(pattern.len() as int) == pattern),
    ensures
        replaced(s, pattern, with) == seq![s[0]] + replaced(s.drop_first(), pattern, with),
    decreases s.len(),
{
    if s.len() < pattern.len() {
        lemma_replaced_identity(s, pattern, with);
        lemma_replaced_identity(s.drop_first(), pattern, with);
        assert(seq![s[0]] + s.drop_first() =~= s);
    }
}

/// A text shorter than the pattern is left as it is.
proof fn lemma_replaced_identity(s: Seq<char>, pattern: Seq<char>, with: Seq<char>)
    requires
        s.len() < pattern.len(),
    ensures
        replaced(s, pattern, with) == s,
{
}

/// The memory-update prompt for a memory summary and a conversation.
pub fn fill_update_prompt(current_memory: &str, conversation: &str) -> (r: String)
    ensures
        r@ == replaced(
            replaced(MEMORY_UPDATE_PROMPT@, "{current_memory}"@, current_memory@),
            "{conversation}"@,
            conversation@,
        ),
{
    proof {
        reveal_strlit("{current_memory}");
        reveal_strlit("{conversation}");
    }
    let first = replace_all(MEMORY_UPDATE_PROMPT, "{current_memory}", current_memory);
    replace_all(first.as_str(), "{conversation}", conversation)
}

/// The profile-merge prompt for formatted facts.
pub fn fill_merge_prompt(facts: &str) -> (r: String)
    ensures
        r@ == replaced(MERGE_PROFILE_PROMPT@, "{facts}"@, facts@),
{
    proof {
        reveal_strlit("{facts}");
    }
    replace_all(MERGE_PROFILE_PROMPT, "{facts}", facts)
}

} // verus!
