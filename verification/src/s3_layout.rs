//! The object layout of the S3 runtime store: every object lives under
//! `<prefix>/runtime/v1/`, manage tasks under `<prefix>/manage_tasks/v1/`.

use vstd::prelude::*;
use crate::ids::{parse_uuid, parsed_uuid, uuid_text, uuid_to_string};
use crate::manage_tasks::{json_string_list, parse_string_list, texts_of};
use crate::local_fs::{step_from_file_name, step_of_file_name, step_file_name};
use crate::numbers::{decimal, sort_steps, sorted, u64_to_decimal};
use crate::redis_keys::{after_last, last_segment};
use crate::text::{leading_count, trailing_count, trim_char, sort_texts, texts_sorted, chars_between, suffix_from};

verus! {

/// `s` without leading and trailing runs of `c` (as `str::trim_matches` with a char).
pub open spec fn trimmed(s: Seq<char>, c: char) -> Seq<char> {
    if leading_count(s, c) == s.len() {
        Seq::empty()
    } else {
        s.subrange(leading_count(s, c) as int, s.len() - trailing_count(s, c))
    }
}

/// Object names of one bucket prefix.
#[derive(Debug, Clone)]
pub struct S3Layout {
    /// The prefix, without leading or trailing `/`.
    pub prefix: String,
}

impl S3Layout {
    pub fn new(prefix: &str) -> (r: Self)
        ensures
            r.prefix@ == trimmed(prefix@, '/'),
    {
        S3Layout { prefix: trim_char(prefix, '/') }
    }

    /// `<prefix>/runtime/v1/<tail>`
    pub fn runtime_key(&self, tail: &str) -> (r: String)
        ensures
            r@ == self.prefix@ + "/runtime/v1/"@ + tail@,
    {
        let mut s = self.prefix.clone();
        s.append("/runtime/v1/");
        s.append(tail);
        s
    }

    /// `<prefix>/runtime/v1/<dir>/<id>.json`: thread records (`thread_meta`), memory
    /// (`memory`), tool records (`tools`), sandbox logs (`sandbox`), subagent lists
    /// (`subagent/thread`) and subagent tasks (`subagent/task`).
    pub fn id_json_key(&self, dir: &str, id: u128) -> (r: String)
        ensures
            r@ == self.prefix@ + "/runtime/v1/"@ + (dir@ + "/"@ + uuid_text(id) + ".json"@),
    {
        let mut tail = dir.to_string();
        tail.append("/");
        let t = uuid_to_string(id);
        tail.append(t.as_str());
        tail.append(".json");
        self.runtime_key(tail.as_str())
    }

    /// `<prefix>/runtime/v1/<dir>/<thread>/`: everything of a thread in `dir`
    /// (`checkpoints/latest`, `checkpoints/step`, `artifacts`, `uploads`).
    pub fn thread_dir_key(&self, dir: &str, thread_id: u128) -> (r: String)
        ensures
            r@ == self.prefix@ + "/runtime/v1/"@ + (dir@ + "/"@ + uuid_text(thread_id) + "/"@),
    {
        let mut tail = dir.to_string();
        tail.append("/");
        let t = uuid_to_string(thread_id);
        tail.append(t.as_str());
        tail.append("/");
        self.runtime_key(tail.as_str())
    }

    /// `<prefix>/runtime/v1/<dir>/<thread>/<name>`: an artifact or an upload.
    pub fn thread_item_key(&self, dir: &str, thread_id: u128, name: &str) -> (r: String)
        ensures
            r@ == self.prefix@ + "/runtime/v1/"@ + (dir@ + "/"@ + uuid_text(thread_id) + "/"@ + name@),
    {
        let mut tail = dir.to_string();
        tail.append("/");
        let t = uuid_to_string(thread_id);
        tail.append(t.as_str());
        tail.append("/");
        tail.append(name);
        self.runtime_key(tail.as_str())
    }

    /// `<prefix>/runtime/v1/checkpoints/latest/<thread>/<run>.json`
    pub fn checkpoint_latest_key(&self, thread_id: u128, run_id: u128) -> (r: String)
        ensures
            r@ == self.prefix@ + "/runtime/v1/"@ + ("checkpoints/latest/"@ + uuid_text(thread_id) + "/"@
                + uuid_text(run_id) + ".json"@),
    {
        let mut tail = "checkpoints/latest/".to_string();
        let t = uuid_to_string(thread_id);
        tail.append(t.as_str());
        tail.append("/");
        let u = uuid_to_string(run_id);
        tail.append(u.as_str());
        tail.append(".json");
        self.runtime_key(tail.as_str())
    }

    /// `<prefix>/runtime/v1/checkpoints/step/<thread>/<run>`: where the steps of a run are.
    pub fn checkpoint_run_prefix(&self, thread_id: u128, run_id: u128) -> (r: String)
        ensures
            r@ == self.prefix@ + "/runtime/v1/"@ + ("checkpoints/step/"@ + uuid_text(thread_id) + "/"@
                + uuid_text(run_id)),
    {
        let mut tail = "checkpoints/step/".to_string();
        let t = uuid_to_string(thread_id);
        tail.append(t.as_str());
        tail.append("/");
        let u = uuid_to_string(run_id);
        tail.append(u.as_str());
        self.runtime_key(tail.as_str())
    }

    /// `<prefix>/runtime/v1/checkpoints/step/<thread>/<run>/<step>.json`
    pub fn checkpoint_step_key(&self, thread_id: u128, run_id: u128, step: u64) -> (r: String)
        ensures
            r@ == self.prefix@ + "/runtime/v1/"@ + ("checkpoints/step/"@ + uuid_text(thread_id) + "/"@
                + uuid_text(run_id)) + "/"@ + (decimal(step as nat) + ".json"@),
    {
        let mut s = self.checkpoint_run_prefix(thread_id, run_id);
        s.append("/");
        let n = u64_to_decimal(step);
        s.append(n.as_str());
        s.append(".json");
        s
    }

    /// `<prefix>/runtime/v1/ops/<thread>/last.json`: the last deletion report of a thread.
    pub fn audit_key(&self, thread_id: u128) -> (r: String)
        ensures
            r@ == self.prefix@ + "/runtime/v1/"@ + ("ops/"@ + uuid_text(thread_id) + "/last.json"@),
    {
        let mut tail = "ops/".to_string();
        let t = uuid_to_string(thread_id);
        tail.append(t.as_str());
        tail.append("/last.json");
        self.runtime_key(tail.as_str())
    }

    /// `<prefix>/manage_tasks/v1/<dir>/<id>.json`: manage tasks (`tasks`) and the task ids
    /// of a thread (`thread_index`).
    pub fn manage_key(&self, dir: &str, id: &str) -> (r: String)
        ensures
            r@ == self.prefix@ + "/manage_tasks/v1/"@ + dir@ + "/"@ + id@ + ".json"@,
    {
        let mut s = self.prefix.clone();
        s.append("/manage_tasks/v1/");
        s.append(dir);
        s.append("/");
        s.append(id);
        s.append(".json");
        s
    }

    /// `s3:<prefix>/<thread>/<name>`: how a stored artifact is addressed.
    pub fn artifact_uri(&self, thread_id: u128, name: &str) -> (r: String)
        ensures
            r@ == "s3:"@ + self.prefix@ + "/"@ + uuid_text(thread_id) + "/"@ + name@,
    {
        let mut s = "s3:".to_string();
        s.append(self.prefix.as_str());
        s.append("/");
        let t = uuid_to_string(thread_id);
        s.append(t.as_str());
        s.append("/");
        s.append(name);
        s
    }
}

/// The step an object location names: its file name minus `.json`, parsed as `u64`.
pub open spec fn step_of_location(location: Seq<char>) -> Option<u64> {
    step_of_file_name(last_segment(location, '/'))
}

/// The steps named by listed checkpoint objects, ascending; other objects are skipped.
pub fn steps_from_locations(locations: &Vec<String>) -> (r: Vec<u64>)
    ensures
        sorted(r@),
        r@.to_multiset() == locations@.filter_map(|l: String| step_of_location(l@)).to_multiset(),
{
    let ghost f = |l: String| step_of_location(l@);
    let mut steps: Vec<u64> = Vec::new();
    let mut i: usize = 0;
    while i < locations.len()
        invariant
            i <= locations@.len(),
            f == (|l: String| step_of_location(l@)),
            steps@ == locations@.take(i as int).filter_map(f),
        decreases locations@.len() - i,
    {
        proof {
            locations@.lemma_filter_map_take_succ(f, i as int);
        }
        let name = after_last(locations[i].as_str(), '/');
        match step_from_file_name(name.as_str()) {
            Some(s) => {
                steps.push(s);
            },
            None => {},
        }
        i = i + 1;
    }
    assert(locations@.take(locations@.len() as int) =~= locations@);
    sort_steps(steps)
}

/// Whether `m` occurs in `s` at `i`.
pub open spec fn occurs_at(s: Seq<char>, m: Seq<char>, i: int) -> bool {
    0 <= i && i + m.len() <= s.len() && s.subrange(i, i + m.len()) == m
}

/// Where `m` first occurs in `s`, as `str::find` reports it.
pub open spec fn first_occurrence(s: Seq<char>, m: Seq<char>) -> Option<int> {
    if exists|i: int| occurs_at(s, m, i) {
        Some(choose|i: int| occurs_at(s, m, i) && forall|j: int| 0 <= j < i ==> !occurs_at(s, m, j))
    } else {
        None
    }
}

/// The text before the first `sep` of `s` (all of `s` when it has none), as
/// `s.split(sep).next()` yields it.
pub open spec fn first_segment(s: Seq<char>, sep: char) -> Seq<char>
    decreases s.len(),
{
    if s.len() == 0 {
        s
    } else if s[0] == sep {
        Seq::empty()
    } else {
        seq![s[0]] + first_segment(s.drop_first(), sep)
    }
}

/// The upload named by a listed location: the first segment after the first
/// `uploads/<thread>/` in it, unless empty.
pub open spec fn upload_name_of(location: Seq<char>, marker: Seq<char>) -> Option<Seq<char>> {
    match first_occurrence(location, marker) {
        Some(i) => {
            let name = first_segment(location.skip(i + marker.len()), '/');
            if name.len() > 0 {
                Some(name)
            } else {
                None
            }
        },
        None => None,
    }
}

fn find_text(s: &str, m: &str) -> (r: Option<usize>)
    ensures
        match first_occurrence(s@, m@) {
            Some(i) => r == Some(i as usize),
            None => r is None,
        },
{
    let n = s.unicode_len();
    let k = m.unicode_len();
    if k > n {
        assert(forall|i: int| !occurs_at(s@, m@, i));
        return None;
    }
    let mut i: usize = 0;
    while i <= n - k
        invariant
            n == s@.len(),
            k == m@.len(),
            k <= n,
            i <= n - k + 1,
            forall|j: int| 0 <= j < i ==> !occurs_at(s@, m@, j),
        decreases n - k + 1 - i,
    {
        let mut q: usize = 0;
        while q < k && s.get_char(i + q) == m.get_char(q)
            invariant
                n == s@.len(),
                k == m@.len(),
                i + k <= n,
                q <= k,
                forall|p: int| 0 <= p < q ==> s@[i + p] == m@[p],
            decreases k - q,
        {
            q = q + 1;
        }
        if q == k {
            assert(s@.subrange(i as int, i + k) =~= m@);
            assert(occurs_at(s@, m@, i as int));
            proof {
                let c = choose|c: int| occurs_at(s@, m@, c) && forall|j: int| 0 <= j < c ==> !occurs_at(s@, m@, j);
                assert(!(c < i) && !(c > i));
            }
            return Some(i);
        }
        assert(s@.subrange(i as int, i + k)[q as int] != m@[q as int]);
        i = i + 1;
    }
    assert forall|j: int| !occurs_at(s@, m@, j) by {
        if 0 <= j && j + k <= n {
            assert(j < i);
        }
    }
    None
}

proof fn lemma_first_segment(s: Seq<char>, sep: char, k: int)
    requires
        0 <= k <= s.len(),
        forall|j: int| 0 <= j < k ==> s[j] != sep,
        k == s.len() || s[k] == sep,
    ensures
        first_segment(s, sep) == s.take(k),
    decreases k,
{
    if k == 0 {
        assert(s.take(0) =~= Seq::<char>::empty());
    } else {
        lemma_first_segment(s.drop_first(), sep, k - 1);
        assert(seq![s[0]] + s.drop_first().take(k - 1) =~= s.take(k));
    }
}

/// The text before the first `sep` of `s`.
pub fn before_first(s: &str, sep: char) -> (r: String)
    ensures
        r@ == first_segment(s@, sep),
{
    let n = s.unicode_len();
    let mut k: usize = 0;
    while k < n && s.get_char(k) != sep
        invariant
            n == s@.len(),
            k <= n,
            forall|j: int| 0 <= j < k ==> s@[j] != sep,
        decreases n - k,
    {
        k = k + 1;
    }
    proof {
        lemma_first_segment(s@, sep, k as int);
    }
    chars_between(s, 0, k)
}

proof fn lemma_first_occurrence(s: Seq<char>, m: Seq<char>)
    ensures
        match first_occurrence(s, m) {
            Some(i) => occurs_at(s, m, i) && forall|j: int| 0 <= j < i ==> !occurs_at(s, m, j),
            None => forall|i: int| !occurs_at(s, m, i),
        },
{
    if exists|i: int| occurs_at(s, m, i) {
        let w = choose|i: int| occurs_at(s, m, i);
        lemma_least_occurrence(s, m, w);
    }
}

proof fn lemma_least_occurrence(s: Seq<char>, m: Seq<char>, w: int)
    requires
        occurs_at(s, m, w),
    ensures
        exists|i: int| occurs_at(s, m, i) && forall|j: int| 0 <= j < i ==> !occurs_at(s, m, j),
    decreases w,
{
    if exists|j: int| 0 <= j < w && occurs_at(s, m, j) {
        let j = choose|j: int| 0 <= j < w && occurs_at(s, m, j);
        lemma_least_occurrence(s, m, j);
    } else {
        assert(occurs_at(s, m, w) && forall|j: int| 0 <= j < w ==> !occurs_at(s, m, j));
    }
}

/// The upload named by a listed location, if any.
fn upload_name(location: &str, marker: &str) -> (r: Option<String>)
    ensures
        match upload_name_of(location@, marker@) {
            Some(n) => r matches Some(s) && s@ == n,
            None => r is None,
        },
{
    proof {
        lemma_first_occurrence(location@, marker@);
    }
    let n = location.unicode_len();
    let k = marker.unicode_len();
    match find_text(location, marker) {
        Some(at) => {
            assert(at + k <= n);
            let rest = suffix_from(location, at + k);
            let name = before_first(rest.as_str(), '/');
            if name.as_str().unicode_len() > 0 {
                Some(name)
            } else {
                None
            }
        },
        None => None,
    }
}

/// The upload file names of a thread among listed object locations, sorted.
pub fn upload_names_from_locations(locations: &Vec<String>, thread_id: u128) -> (r: Vec<String>)
    ensures
        texts_sorted(r@),
        r@.map_values(|n: String| n@).to_multiset() == locations@.filter_map(
            |l: String| upload_name_of(l@, "uploads/"@ + uuid_text(thread_id) + "/"@),
        ).to_multiset(),
{
    let mut marker = "uploads/".to_string();
    let t = uuid_to_string(thread_id);
    marker.append(t.as_str());
    marker.append("/");
    let ghost m = marker@;
    let ghost f = |l: String| upload_name_of(l@, m);
    let mut names: Vec<String> = Vec::new();
    let mut i: usize = 0;
    while i < locations.len()
        invariant
            i <= locations@.len(),
            m == marker@,
            f == (|l: String| upload_name_of(l@, m)),
            names@.map_values(|n: String| n@) == locations@.take(i as int).filter_map(f),
        decreases locations@.len() - i,
    {
        proof {
            locations@.lemma_filter_map_take_succ(f, i as int);
        }
        match upload_name(locations[i].as_str(), marker.as_str()) {
            Some(name) => {
                let ghost before = names@;
                names.push(name);
                assert(names@.map_values(|n: String| n@) =~= before.map_values(|n: String| n@).push(
                    f(locations@[i as int])->0,
                ));
            },
            None => {},
        }
        i = i + 1;
    }
    assert(locations@.take(locations@.len() as int) =~= locations@);
    let ghost unsorted = names@;
    let r = sort_texts(names);
    proof {
        lemma_view_multiset(unsorted, r@);
    }
    r
}

/// Sequences of texts with the same multiset have views with the same multiset.
proof fn lemma_view_multiset(a: Seq<String>, b: Seq<String>)
    requires
        a.to_multiset() == b.to_multiset(),
    ensures
        a.map_values(|n: String| n@).to_multiset() == b.map_values(|n: String| n@).to_multiset(),
    decreases a.len(),
{
    broadcast use vstd::seq_lib::group_to_multiset_ensures;
    if a.len() == 0 {
        assert(b.len() == 0) by {
            vstd::seq_lib::to_multiset_len(a);
            vstd::seq_lib::to_multiset_len(b);
        }
        assert(a.map_values(|n: String| n@) =~= Seq::<Seq<char>>::empty());
        assert(b.map_values(|n: String| n@) =~= Seq::<Seq<char>>::empty());
    } else {
        let x = a.last();
        assert(b.to_multiset().count(x) > 0) by {
            assert(a.to_multiset().count(x) > 0) by {
                assert(a[a.len() - 1] == x);
                assert(a.contains(x));
            }
        }
        assert(b.contains(x));
        let k = b.index_of(x);
        let a1 = a.drop_last();
        let b1 = b.remove(k);
        assert(a =~= a1.push(x));
        vstd::seq_lib::to_multiset_build(a1, x);
        vstd::seq_lib::to_multiset_remove(b, k);
        assert(a1.to_multiset() =~= b1.to_multiset());
        lemma_view_multiset(a1, b1);
        let av = a.map_values(|n: String| n@);
        let a1v = a1.map_values(|n: String| n@);
        let bv = b.map_values(|n: String| n@);
        let b1v = b1.map_values(|n: String| n@);
        assert(av =~= a1v.push(x@));
        assert(b1v =~= bv.remove(k));
        vstd::seq_lib::to_multiset_build(a1v, x@);
        vstd::seq_lib::to_multiset_remove(bv, k);
        assert(bv[k] == x@);
        assert(bv.to_multiset().count(x@) > 0) by {
            assert(bv.contains(x@));
        }
        assert(bv.to_multiset() =~= b1v.to_multiset().insert(x@));
    }
}

/// A checkpoint saved at a step is listed back at that step: the step's object name
/// yields the step.
pub proof fn law_checkpoint_step_objects_round_trip(location_dir: Seq<char>, step: u64)
    ensures
        step_of_location(location_dir + "/"@ + (decimal(step as nat) + ".json"@)) == Some(step),
{
    reveal_strlit("/");
    reveal_strlit(".json");
    let name = decimal(step as nat) + ".json"@;
    let head = location_dir + "/"@;
    let loc = head + name;
    crate::numbers::lemma_decimal_digits(step as nat);
    let k = head.len() as int;
    assert forall|j: int| k <= j < loc.len() implies loc[j] != '/' by {
        assert(loc[j] == name[j - k]);
        if j - k < decimal(step as nat).len() {
            assert(crate::numbers::is_digit(decimal(step as nat)[j - k]));
        }
    }
    assert(loc[k - 1] == '/');
    crate::redis_keys::lemma_last_segment(loc, '/', k);
    assert(loc.skip(k) =~= name);
    assert(name.skip(name.len() - 5) =~= ".json"@);
    assert(name.take(name.len() - 5) =~= decimal(step as nat));
    crate::numbers::lemma_parse_padded_decimal(step, 0);
}


/// The ids that the texts denote, when every one of them is a UUID.
pub open spec fn uuids_of(texts: Seq<Seq<char>>) -> Option<Seq<u128>>
    decreases texts.len(),
{
    if texts.len() == 0 {
        Some(Seq::empty())
    } else {
        match (uuids_of(texts.drop_last()), parsed_uuid(texts.last())) {
            (Some(ids), Some(id)) => Some(ids.push(id)),
            _ => None,
        }
    }
}

/// Why a stored id list could not be read.
#[derive(Debug, Clone, PartialEq, Eq)]
pub enum IdListError {
    /// The text is not a JSON list of strings; the parser's message.
    Json(String),
    /// This entry of the list is not a UUID.
    NotUuid(String),
}

/// The ids of a stored JSON list of UUID texts (the memory index, a thread's subagent
/// list): `Ok` exactly when the text is a list of strings that are all UUIDs.
pub fn uuid_list_from_json(text: &str) -> (r: Result<Vec<u128>, IdListError>)
    ensures
        match json_string_list(text@) {
            Ok(texts) => match uuids_of(texts) {
                Some(ids) => r matches Ok(v) && v@ == ids,
                None => r matches Err(IdListError::NotUuid(t)) && texts.contains(t@) && parsed_uuid(t@) is None,
            },
            Err(m) => r matches Err(IdListError::Json(e)) && e@ == m,
        },
{
    let texts = match parse_string_list(text) {
        Ok(t) => t,
        Err(m) => {
            return Err(IdListError::Json(m));
        },
    };
    let ghost tv = texts_of(texts@);
    let mut ids: Vec<u128> = Vec::new();
    let mut i: usize = 0;
    while i < texts.len()
        invariant
            i <= texts@.len(),
            tv == texts_of(texts@),
            json_string_list(text@) == Ok::<Seq<Seq<char>>, Seq<char>>(tv),
            uuids_of(tv.take(i as int)) == Some(ids@),
        decreases texts@.len() - i,
    {
        assert(tv.take(i + 1).drop_last() =~= tv.take(i as int));
        assert(tv[i as int] == texts@[i as int]@);
        match parse_uuid(texts[i].as_str()) {
            Some(id) => {
                ids.push(id);
            },
            None => {
                let bad = texts[i].clone();
                proof {
                    assert(tv.take(i + 1).last() == tv[i as int]);
                    assert(parsed_uuid(tv[i as int]) is None);
                    assert(uuids_of(tv.take(i + 1)) is None);
                    lemma_uuids_of_prefix(tv, i as int + 1);
                    assert(tv[i as int] == bad@);
                    assert(tv.contains(bad@));
                }
                return Err(IdListError::NotUuid(bad));
            },
        }
        i = i + 1;
    }
    assert(tv.take(texts@.len() as int) =~= tv);
    Ok(ids)
}

proof fn lemma_uuids_of_prefix(texts: Seq<Seq<char>>, k: int)
    requires
        0 <= k <= texts.len(),
        uuids_of(texts.take(k)) is None,
    ensures
        uuids_of(texts) is None,
    decreases texts.len() - k,
{
    if k < texts.len() {
        assert(texts.take(k + 1).drop_last() =~= texts.take(k));
        lemma_uuids_of_prefix(texts, k + 1);
    } else {
        assert(texts.take(k) =~= texts);
    }
}

/// The memory index without `thread_id`, and whether it held it (so that it has to be
/// written back).
pub fn index_without(ids: &Vec<u128>, thread_id: u128) -> (r: (Vec<u128>, bool))
    ensures
        r.0@ == ids@.filter(|x: u128| x != thread_id),
        r.1 == ids@.contains(thread_id),
{
    let ghost f = |x: u128| x != thread_id;
    let mut kept: Vec<u128> = Vec::new();
    let mut held = false;
    let mut i: usize = 0;
    while i < ids.len()
        invariant
            i <= ids@.len(),
            f == (|x: u128| x != thread_id),
            kept@ == ids@.take(i as int).filter(f),
            held == ids@.take(i as int).contains(thread_id),
        decreases ids@.len() - i,
    {
        proof {
            ids@.take(i as int).lemma_filter_push(ids@[i as int], f);
            assert(ids@.take(i + 1) =~= ids@.take(i as int).push(ids@[i as int]));
        }
        if ids[i] != thread_id {
            kept.push(ids[i]);
        } else {
            held = true;
            assert(ids@.take(i + 1)[i as int] == thread_id);
        }
        proof {
            if !held {
                assert forall|j: int| 0 <= j < i + 1 implies #[trigger] ids@.take(i + 1)[j] != thread_id by {
                    if j < i {
                        assert(ids@.take(i + 1)[j] == ids@.take(i as int)[j]);
                    }
                }
            } else if ids@.take(i as int).contains(thread_id) {
                let j = choose|j: int| 0 <= j < i && ids@.take(i as int)[j] == thread_id;
                assert(ids@.take(i + 1)[j] == thread_id);
            }
        }
        i = i + 1;
    }
    assert(ids@.take(ids@.len() as int) =~= ids@);
    (kept, held)
}

} // verus!
