//! The key schema of the Redis runtime store: every value lives under `oh:rt:v1`, with
//! `:`-separated segments naming its kind and owner.

use vstd::prelude::*;
use crate::ids::{uuid_text, uuid_to_string};
use crate::numbers::{
    decimal, lemma_decimal_digits, lemma_parse_padded_decimal, parse_u64, parse_u64_spec,
    sort_dedup_steps, strictly_sorted, u64_to_decimal, all_digits,
};
use crate::text::suffix_from;

verus! {

/// `oh:rt:v1` followed by each segment, each after a `:`.
pub open spec fn redis_key(segments: Seq<Seq<char>>) -> Seq<char>
    decreases segments.len(),
{
    if segments.len() == 0 {
        "oh:rt:v1"@
    } else {
        redis_key(segments.drop_last()) + ":"@ + segments.last()
    }
}

/// The key made of these segments.
pub fn key_of(segments: &[&str]) -> (r: String)
    ensures
        r@ == redis_key(segments@.map_values(|s: &str| s@)),
{
    let ghost views = segments@.map_values(|s: &str| s@);
    let mut k = "oh:rt:v1".to_string();
    let mut i: usize = 0;
    assert(views.take(0) =~= Seq::<Seq<char>>::empty());
    while i < segments.len()
        invariant
            i <= segments@.len(),
            views == segments@.map_values(|s: &str| s@),
            k@ == redis_key(views.take(i as int)),
        decreases segments@.len() - i,
    {
        k.append(":");
        k.append(segments[i]);
        assert(views.take(i + 1).drop_last() =~= views.take(i as int));
        i = i + 1;
    }
    assert(views.take(segments@.len() as int) =~= views);
    k
}

/// `oh:rt:v1:tmeta:<thread>`
pub fn thread_meta_key(thread_id: u128) -> (r: String)
    ensures
        r@ == redis_key(seq!["tmeta"@, uuid_text(thread_id)]),
{
    let t = uuid_to_string(thread_id);
    let segs = ["tmeta", t.as_str()];
    let r = key_of(&segs);
    assert(segs@.map_values(|s: &str| s@) =~= seq!["tmeta"@, uuid_text(thread_id)]);
    r
}

/// `oh:rt:v1:cp:latest:<thread>:<run>`
pub fn checkpoint_latest_key(thread_id: u128, run_id: u128) -> (r: String)
    ensures
        r@ == redis_key(seq!["cp"@, "latest"@, uuid_text(thread_id), uuid_text(run_id)]),
{
    let t = uuid_to_string(thread_id);
    let u = uuid_to_string(run_id);
    let segs = ["cp", "latest", t.as_str(), u.as_str()];
    let r = key_of(&segs);
    assert(segs@.map_values(|s: &str| s@) =~= seq!["cp"@, "latest"@, uuid_text(thread_id), uuid_text(run_id)]);
    r
}

/// `oh:rt:v1:cp:step:<thread>:<run>:<step>`
pub fn checkpoint_step_key(thread_id: u128, run_id: u128, step: u64) -> (r: String)
    ensures
        r@ == redis_key(
            seq!["cp"@, "step"@, uuid_text(thread_id), uuid_text(run_id), decimal(step as nat)],
        ),
{
    let t = uuid_to_string(thread_id);
    let u = uuid_to_string(run_id);
    let n = u64_to_decimal(step);
    let segs = ["cp", "step", t.as_str(), u.as_str(), n.as_str()];
    let r = key_of(&segs);
    assert(segs@.map_values(|s: &str| s@) =~= seq![
        "cp"@,
        "step"@,
        uuid_text(thread_id),
        uuid_text(run_id),
        decimal(step as nat),
    ]);
    r
}

/// The pattern matching every step of a run: `oh:rt:v1:cp:step:<thread>:<run>:*`
pub fn checkpoint_steps_pattern(thread_id: u128, run_id: u128) -> (r: String)
    ensures
        r@ == redis_key(seq!["cp"@, "step"@, uuid_text(thread_id), uuid_text(run_id), "*"@]),
{
    let t = uuid_to_string(thread_id);
    let u = uuid_to_string(run_id);
    let segs = ["cp", "step", t.as_str(), u.as_str(), "*"];
    let r = key_of(&segs);
    assert(segs@.map_values(|s: &str| s@) =~= seq!["cp"@, "step"@, uuid_text(thread_id), uuid_text(run_id), "*"@]);
    r
}

/// The pattern matching the checkpoints of a thread of one kind (`latest` or `step`):
/// `oh:rt:v1:cp:<kind>:<thread>:*`
pub fn checkpoint_thread_pattern(kind: &str, thread_id: u128) -> (r: String)
    ensures
        r@ == redis_key(seq!["cp"@, kind@, uuid_text(thread_id), "*"@]),
{
    let t = uuid_to_string(thread_id);
    let segs = ["cp", kind, t.as_str(), "*"];
    let r = key_of(&segs);
    assert(segs@.map_values(|s: &str| s@) =~= seq!["cp"@, kind@, uuid_text(thread_id), "*"@]);
    r
}

/// `oh:rt:v1:<kind>:<thread>`, for the per-thread values `mem`, `tools` and `sbx`.
pub fn thread_value_key(kind: &str, thread_id: u128) -> (r: String)
    ensures
        r@ == redis_key(seq![kind@, uuid_text(thread_id)]),
{
    let t = uuid_to_string(thread_id);
    let segs = [kind, t.as_str()];
    let r = key_of(&segs);
    assert(segs@.map_values(|s: &str| s@) =~= seq![kind@, uuid_text(thread_id)]);
    r
}

/// `oh:rt:v1:<kind>:<thread>:<name>`, for artifacts (`art`) and uploads (`up`).
pub fn thread_item_key(kind: &str, thread_id: u128, name: &str) -> (r: String)
    ensures
        r@ == redis_key(seq![kind@, uuid_text(thread_id), name@]),
{
    let t = uuid_to_string(thread_id);
    let segs = [kind, t.as_str(), name];
    let r = key_of(&segs);
    assert(segs@.map_values(|s: &str| s@) =~= seq![kind@, uuid_text(thread_id), name@]);
    r
}

/// `oh:rt:v1:<a>:<b>:<thread>`, for subagent lists (`sub:thread`), upload indexes
/// (`up:files`) and deletion audits (`op:last`).
pub fn thread_index_key(a: &str, b: &str, thread_id: u128) -> (r: String)
    ensures
        r@ == redis_key(seq![a@, b@, uuid_text(thread_id)]),
{
    let t = uuid_to_string(thread_id);
    let segs = [a, b, t.as_str()];
    let r = key_of(&segs);
    assert(segs@.map_values(|s: &str| s@) =~= seq![a@, b@, uuid_text(thread_id)]);
    r
}

/// `oh:rt:v1:sub:tid:<task>`
pub fn subagent_task_key(task_id: u128) -> (r: String)
    ensures
        r@ == redis_key(seq!["sub"@, "tid"@, uuid_text(task_id)]),
{
    thread_index_key("sub", "tid", task_id)
}

/// `oh:rt:v1:mt:task:<task>` and `oh:rt:v1:mt:thread:<thread>`: manage tasks by id and
/// the task ids of a thread.
pub fn manage_task_key(kind: &str, id: &str) -> (r: String)
    ensures
        r@ == redis_key(seq!["mt"@, kind@, id@]),
{
    let segs = ["mt", kind, id];
    let r = key_of(&segs);
    assert(segs@.map_values(|s: &str| s@) =~= seq!["mt"@, kind@, id@]);
    r
}

/// The store-wide keys: `oh:rt:v1:skills`, `oh:rt:v1:mem:threads`,
/// `oh:rt:v1:app:mcp`, `oh:rt:v1:app:manage`.
pub fn global_key(a: &str, b: Option<&str>) -> (r: String)
    ensures
        r@ == match b {
            Some(b) => redis_key(seq![a@, b@]),
            None => redis_key(seq![a@]),
        },
{
    match b {
        Some(b) => {
            let segs = [a, b];
            let r = key_of(&segs);
            assert(segs@.map_values(|s: &str| s@) =~= seq![a@, b@]);
            r
        },
        None => {
            let segs = [a];
            let r = key_of(&segs);
            assert(segs@.map_values(|s: &str| s@) =~= seq![a@]);
            r
        },
    }
}

/// `redis:artifact:<thread>/<name>`: how a stored artifact is addressed.
pub fn artifact_uri(thread_id: u128, name: &str) -> (r: String)
    ensures
        r@ == "redis:artifact:"@ + uuid_text(thread_id) + "/"@ + name@,
{
    let mut s = "redis:artifact:".to_string();
    let t = uuid_to_string(thread_id);
    s.append(t.as_str());
    s.append("/");
    s.append(name);
    s
}

/// The text after the last `sep` of `s` (all of `s` when it has none), as
/// `s.rsplit(sep).next()` yields it.
pub open spec fn last_segment(s: Seq<char>, sep: char) -> Seq<char>
    decreases s.len(),
{
    if s.len() == 0 {
        s
    } else if s.last() == sep {
        Seq::empty()
    } else {
        last_segment(s.drop_last(), sep).push(s.last())
    }
}

pub proof fn lemma_last_segment(s: Seq<char>, sep: char, k: int)
    requires
        0 <= k <= s.len(),
        forall|j: int| k <= j < s.len() ==> s[j] != sep,
        k == 0 || s[k - 1] == sep,
    ensures
        last_segment(s, sep) == s.skip(k),
    decreases s.len() - k,
{
    if k == s.len() {
        if s.len() > 0 {
            assert(s.last() == sep);
        }
        assert(s.skip(k) =~= Seq::<char>::empty());
    } else {
        lemma_last_segment(s.drop_last(), sep, k);
        assert(s.drop_last().skip(k).push(s.last()) =~= s.skip(k));
    }
}

/// The text after the last `sep` of `s`.
pub fn after_last(s: &str, sep: char) -> (r: String)
    ensures
        r@ == last_segment(s@, sep),
{
    let n = s.unicode_len();
    let mut k = n;
    while k > 0 && s.get_char(k - 1) != sep
        invariant
            n == s@.len(),
            k <= n,
            forall|j: int| k <= j < n ==> s@[j] != sep,
        decreases k,
    {
        k = k - 1;
    }
    proof {
        lemma_last_segment(s@, sep, k as int);
    }
    suffix_from(s, k)
}

/// The step a checkpoint key names: its last segment, parsed as `u64`.
pub open spec fn step_of_key(key: Seq<char>) -> Option<u64> {
    parse_u64_spec(last_segment(key, ':'))
}

/// The steps named by checkpoint keys, ascending and without repeats; keys whose last
/// segment is not a number are skipped.
pub fn steps_from_keys(keys: &Vec<String>) -> (r: Vec<u64>)
    ensures
        strictly_sorted(r@),
        r@.to_set() == keys@.filter_map(|k: String| step_of_key(k@)).to_set(),
{
    let ghost f = |k: String| step_of_key(k@);
    let mut steps: Vec<u64> = Vec::new();
    let mut i: usize = 0;
    while i < keys.len()
        invariant
            i <= keys@.len(),
            f == (|k: String| step_of_key(k@)),
            steps@ == keys@.take(i as int).filter_map(f),
        decreases keys@.len() - i,
    {
        proof {
            keys@.lemma_filter_map_take_succ(f, i as int);
        }
        let last = after_last(keys[i].as_str(), ':');
        match parse_u64(last.as_str()) {
            Some(s) => {
                steps.push(s);
            },
            None => {},
        }
        i = i + 1;
    }
    assert(keys@.take(keys@.len() as int) =~= keys@);
    sort_dedup_steps(steps)
}

proof fn lemma_decimal_has_no_colon(n: nat)
    ensures
        forall|j: int| 0 <= j < decimal(n).len() ==> decimal(n)[j] != ':',
{
    lemma_decimal_digits(n);
    assert forall|j: int| 0 <= j < decimal(n).len() implies decimal(n)[j] != ':' by {
        assert(crate::numbers::is_digit(decimal(n)[j]));
    }
}

/// A checkpoint saved at a step is listed back at that step: the last segment of the
/// step's key parses to the step.
pub proof fn law_checkpoint_step_keys_round_trip(thread_id: u128, run_id: u128, step: u64)
    ensures
        step_of_key(
            redis_key(seq!["cp"@, "step"@, uuid_text(thread_id), uuid_text(run_id), decimal(step as nat)]),
        ) == Some(step),
{
    let segs = seq!["cp"@, "step"@, uuid_text(thread_id), uuid_text(run_id), decimal(step as nat)];
    let d = decimal(step as nat);
    let key = redis_key(segs);
    let head = redis_key(segs.drop_last()) + ":"@;
    assert(segs.last() == d);
    assert(key == head + d);
    lemma_decimal_has_no_colon(step as nat);
    reveal_strlit(":");
    assert(head.last() == ':');
    let k = head.len() as int;
    assert forall|j: int| k <= j < key.len() implies key[j] != ':' by {
        assert(key[j] == d[j - k]);
    }
    assert(key[k - 1] == ':');
    lemma_last_segment(key, ':', k);
    assert(key.skip(k) =~= d);
    lemma_parse_padded_decimal(step, 0);
}

} // verus!
