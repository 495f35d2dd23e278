//! Manage-task records: replace-or-append writes into a thread's task list, lookups by
//! task id, per-thread task indexes, and listings ordered newest first.

use vstd::prelude::*;
use crate::errors::StateError;
use crate::session::UtcTimestamp;
use crate::text::str_eq;

verus! {

/// One task of the manage API and its streamed output.
#[derive(Debug)]
pub struct ManageTaskRecord {
    pub task_id: String,
    pub thread_id: String,
    pub status: String,
    pub output_chunks: Vec<String>,
    pub error: Option<String>,
    pub callback_url: Option<String>,
    pub stream: bool,
    pub client_task_id: Option<String>,
    pub tenant_id: String,
    pub user_id: String,
    pub created_at: UtcTimestamp,
    pub updated_at: UtcTimestamp,
    pub version: i64,
}

/// Mathematical value of a [`ManageTaskRecord`].
pub struct ManageTaskView {
    pub task_id: Seq<char>,
    pub thread_id: Seq<char>,
    pub status: Seq<char>,
    pub output_chunks: Seq<Seq<char>>,
    pub error: Option<Seq<char>>,
    pub callback_url: Option<Seq<char>>,
    pub stream: bool,
    pub client_task_id: Option<Seq<char>>,
    pub tenant_id: Seq<char>,
    pub user_id: Seq<char>,
    pub created_at: UtcTimestamp,
    pub updated_at: UtcTimestamp,
    pub version: i64,
}

/// The text of an optional string.
pub open spec fn opt_text(o: Option<String>) -> Option<Seq<char>> {
    match o {
        Some(s) => Some(s@),
        None => None,
    }
}

/// The texts of a list of strings.
pub open spec fn texts_of(s: Seq<String>) -> Seq<Seq<char>> {
    s.map_values(|c: String| c@)
}

impl View for ManageTaskRecord {
    type V = ManageTaskView;

    open spec fn view(&self) -> ManageTaskView {
        ManageTaskView {
            task_id: self.task_id@,
            thread_id: self.thread_id@,
            status: self.status@,
            output_chunks: texts_of(self.output_chunks@),
            error: opt_text(self.error),
            callback_url: opt_text(self.callback_url),
            stream: self.stream,
            client_task_id: opt_text(self.client_task_id),
            tenant_id: self.tenant_id@,
            user_id: self.user_id@,
            created_at: self.created_at,
            updated_at: self.updated_at,
            version: self.version,
        }
    }
}

/// The values of a list of task records.
pub open spec fn task_views(s: Seq<ManageTaskRecord>) -> Seq<ManageTaskView> {
    s.map_values(|t: ManageTaskRecord| t@)
}

fn copy_texts(v: &Vec<String>) -> (r: Vec<String>)
    ensures
        r@ == v@,
{
    let mut out: Vec<String> = Vec::new();
    let mut i: usize = 0;
    while i < v.len()
        invariant
            i <= v@.len(),
            out@ == v@.take(i as int),
        decreases v@.len() - i,
    {
        let c = v[i].clone();
        out.push(c);
        assert(out@ =~= v@.take(i + 1));
        i = i + 1;
    }
    assert(v@.take(v@.len() as int) =~= v@);
    out
}

impl ManageTaskRecord {
    /// A copy of the record.
    pub fn duplicate(&self) -> (r: Self)
        ensures
            r@ == self@,
    {
        ManageTaskRecord {
            task_id: self.task_id.clone(),
            thread_id: self.thread_id.clone(),
            status: self.status.clone(),
            output_chunks: copy_texts(&self.output_chunks),
            error: self.error.clone(),
            callback_url: self.callback_url.clone(),
            stream: self.stream,
            client_task_id: self.client_task_id.clone(),
            tenant_id: self.tenant_id.clone(),
            user_id: self.user_id.clone(),
            created_at: self.created_at,
            updated_at: self.updated_at,
            version: self.version,
        }
    }
}

/// The first position whose task has this id, if any.
pub open spec fn task_slot(tasks: Seq<ManageTaskView>, task_id: Seq<char>) -> Option<int> {
    if exists|i: int| 0 <= i < tasks.len() && tasks[i].task_id == task_id {
        Some(choose|i: int| 0 <= i < tasks.len() && tasks[i].task_id == task_id && forall|j: int| 0 <= j < i ==> tasks[j].task_id != task_id)
    } else {
        None
    }
}

proof fn lemma_task_slot_at(tasks: Seq<ManageTaskView>, task_id: Seq<char>, i: int)
    requires
        0 <= i < tasks.len(),
        tasks[i].task_id == task_id,
        forall|j: int| 0 <= j < i ==> tasks[j].task_id != task_id,
    ensures
        task_slot(tasks, task_id) == Some(i),
{
    let k = choose|k: int| 0 <= k < tasks.len() && tasks[k].task_id == task_id && forall|j: int| 0 <= j < k ==> tasks[j].task_id != task_id;
    if k < i {
        assert(tasks[k].task_id != task_id);
    }
    if k > i {
        assert(tasks[i].task_id != task_id);
    }
}

proof fn lemma_least_task(tasks: Seq<ManageTaskView>, task_id: Seq<char>, w: int)
    requires
        0 <= w < tasks.len(),
        tasks[w].task_id == task_id,
    ensures
        exists|i: int| 0 <= i < tasks.len() && tasks[i].task_id == task_id && forall|j: int| 0 <= j < i ==> tasks[j].task_id != task_id,
    decreases w,
{
    if exists|j: int| 0 <= j < w && tasks[j].task_id == task_id {
        let j = choose|j: int| 0 <= j < w && tasks[j].task_id == task_id;
        lemma_least_task(tasks, task_id, j);
    } else {
        assert(0 <= w < tasks.len() && tasks[w].task_id == task_id && forall|j: int| 0 <= j < w ==> tasks[j].task_id != task_id);
    }
}

proof fn lemma_task_slot(tasks: Seq<ManageTaskView>, task_id: Seq<char>)
    ensures
        match task_slot(tasks, task_id) {
            Some(i) => 0 <= i < tasks.len() && tasks[i].task_id == task_id && forall|j: int| 0 <= j < i ==> tasks[j].task_id != task_id,
            None => forall|j: int| 0 <= j < tasks.len() ==> tasks[j].task_id != task_id,
        },
{
    if exists|i: int| 0 <= i < tasks.len() && tasks[i].task_id == task_id {
        let w = choose|i: int| 0 <= i < tasks.len() && tasks[i].task_id == task_id;
        lemma_least_task(tasks, task_id, w);
    }
}

fn find_task_slot(tasks: &Vec<ManageTaskRecord>, task_id: &str) -> (r: Option<usize>)
    ensures
        match r {
            Some(i) => i < tasks@.len() && task_slot(task_views(tasks@), task_id@) == Some(i as int),
            None => task_slot(task_views(tasks@), task_id@) is None,
        },
{
    let ghost views = task_views(tasks@);
    let mut i: usize = 0;
    while i < tasks.len()
        invariant
            i <= tasks@.len(),
            views == task_views(tasks@),
            forall|j: int| 0 <= j < i ==> views[j].task_id != task_id@,
        decreases tasks@.len() - i,
    {
        if str_eq(tasks[i].task_id.as_str(), task_id) {
            proof {
                lemma_task_slot_at(views, task_id@, i as int);
            }
            return Some(i);
        }
        i = i + 1;
    }
    proof {
        lemma_task_slot(views, task_id@);
    }
    None
}

/// The task list after a write: the first task with the same id replaced, or the task
/// appended when there is none.
pub open spec fn tasks_after_upsert(tasks: Seq<ManageTaskView>, task: ManageTaskView) -> Seq<ManageTaskView> {
    match task_slot(tasks, task.task_id) {
        Some(i) => tasks.update(i, task),
        None => tasks.push(task),
    }
}

/// The first task with this id, if any.
pub open spec fn task_with_id(tasks: Seq<ManageTaskView>, task_id: Seq<char>) -> Option<ManageTaskView> {
    match task_slot(tasks, task_id) {
        Some(i) => Some(tasks[i]),
        None => None,
    }
}

/// Writes a task into a thread's task list, replacing the task of the same id or
/// appending it.
pub fn upsert_task_record(tasks: &mut Vec<ManageTaskRecord>, task: &ManageTaskRecord)
    ensures
        task_views(final(tasks)@) == tasks_after_upsert(task_views(old(tasks)@), task@),
{
    let copy = task.duplicate();
    match find_task_slot(tasks, task.task_id.as_str()) {
        Some(i) => {
            tasks.set(i, copy);
            assert(task_views(tasks@) =~= task_views(old(tasks)@).update(i as int, task@));
        },
        None => {
            tasks.push(copy);
            assert(task_views(tasks@) =~= task_views(old(tasks)@).push(task@));
        },
    }
}

/// The task with this id in a task list, if there is one.
pub fn find_task_record(tasks: &Vec<ManageTaskRecord>, task_id: &str) -> (r: Option<ManageTaskRecord>)
    ensures
        match r {
            Some(t) => task_with_id(task_views(tasks@), task_id@) == Some(t@),
            None => task_with_id(task_views(tasks@), task_id@) is None,
        },
{
    match find_task_slot(tasks, task_id) {
        Some(i) => Some(tasks[i].duplicate()),
        None => None,
    }
}

/// `a` is an earlier instant than `b`.
pub open spec fn instant_before(a: UtcTimestamp, b: UtcTimestamp) -> bool {
    a.secs < b.secs || (a.secs == b.secs && a.nanos < b.nanos)
}

/// Whether `a` is an earlier instant than `b`.
pub fn timestamp_before(a: UtcTimestamp, b: UtcTimestamp) -> (r: bool)
    ensures
        r == instant_before(a, b),
{
    a.secs < b.secs || (a.secs == b.secs && a.nanos < b.nanos)
}

/// The first position at or after `k` whose task was updated before `task`, or the
/// length when there is none.
pub open spec fn first_older(tasks: Seq<ManageTaskView>, task: ManageTaskView, k: int) -> int
    decreases tasks.len() - k,
{
    if k >= tasks.len() {
        tasks.len() as int
    } else if instant_before(tasks[k].updated_at, task.updated_at) {
        k
    } else {
        first_older(tasks, task, k + 1)
    }
}

/// `tasks` with `task` placed after every task updated at the same instant or later.
pub open spec fn insert_by_recency(tasks: Seq<ManageTaskView>, task: ManageTaskView) -> Seq<ManageTaskView> {
    tasks.insert(first_older(tasks, task, 0), task)
}

/// The tasks ordered newest first by their update instant; tasks updated at the same
/// instant keep their order.
pub open spec fn by_recency(tasks: Seq<ManageTaskView>) -> Seq<ManageTaskView>
    decreases tasks.len(),
{
    if tasks.len() == 0 {
        tasks
    } else {
        insert_by_recency(by_recency(tasks.drop_last()), tasks.last())
    }
}

/// No task is updated later than one before it.
pub open spec fn newest_first(tasks: Seq<ManageTaskView>) -> bool {
    forall|i: int, j: int| 0 <= i < j < tasks.len() ==> !instant_before(#[trigger] tasks[i].updated_at, #[trigger] tasks[j].updated_at)
}

proof fn lemma_first_older(tasks: Seq<ManageTaskView>, task: ManageTaskView, k: int)
    requires
        0 <= k <= tasks.len(),
    ensures
        k <= first_older(tasks, task, k) <= tasks.len(),
        forall|j: int| k <= j < first_older(tasks, task, k) ==> !instant_before(#[trigger] tasks[j].updated_at, task.updated_at),
        first_older(tasks, task, k) < tasks.len() ==> instant_before(tasks[first_older(tasks, task, k)].updated_at, task.updated_at),
    decreases tasks.len() - k,
{
    if k < tasks.len() && !instant_before(tasks[k].updated_at, task.updated_at) {
        lemma_first_older(tasks, task, k + 1);
    }
}

/// Ordering tasks newest first gives them in an order where no task is updated later
/// than one before it, and keeps every task.
pub proof fn law_listing_is_newest_first(tasks: Seq<ManageTaskView>)
    ensures
        newest_first(by_recency(tasks)),
        by_recency(tasks).to_multiset() == tasks.to_multiset(),
    decreases tasks.len(),
{
    if tasks.len() > 0 {
        let rest = tasks.drop_last();
        let x = tasks.last();
        law_listing_is_newest_first(rest);
        let r = by_recency(rest);
        let p = first_older(r, x, 0);
        lemma_first_older(r, x, 0);
        let out = r.insert(p, x);
        assert(out == by_recency(tasks));
        assert forall|i: int, j: int| 0 <= i < j < out.len() implies !instant_before(#[trigger] out[i].updated_at, #[trigger] out[j].updated_at) by {
            if j < p {
                assert(out[i] == r[i] && out[j] == r[j]);
            } else if j == p {
                assert(out[i] == r[i]);
            } else if i == p {
                assert(out[j] == r[j - 1]);
                assert(!instant_before(r[p].updated_at, r[j - 1].updated_at));
            } else if i < p {
                assert(out[i] == r[i] && out[j] == r[j - 1]);
            } else {
                assert(out[i] == r[i - 1] && out[j] == r[j - 1]);
            }
        }
        vstd::seq_lib::to_multiset_insert(r, p, x);
        vstd::seq_lib::to_multiset_build(rest, x);
        assert(rest.push(x) =~= tasks);
        assert(out.to_multiset() =~= tasks.to_multiset());
    }
}

fn recency_slot(tasks: &Vec<ManageTaskRecord>, task: &ManageTaskRecord) -> (r: usize)
    ensures
        r == first_older(task_views(tasks@), task@, 0),
{
    let ghost views = task_views(tasks@);
    let mut k: usize = 0;
    while k < tasks.len() && !timestamp_before(tasks[k].updated_at, task.updated_at)
        invariant
            k <= tasks@.len(),
            views == task_views(tasks@),
            first_older(views, task@, 0) == first_older(views, task@, k as int),
        decreases tasks@.len() - k,
    {
        k = k + 1;
    }
    k
}

/// Tasks ordered newest first by their update instant; tasks updated at the same
/// instant keep their order.
pub fn order_newest_first(tasks: Vec<ManageTaskRecord>) -> (r: Vec<ManageTaskRecord>)
    ensures
        task_views(r@) == by_recency(task_views(tasks@)),
{
    let ghost views = task_views(tasks@);
    let mut out: Vec<ManageTaskRecord> = Vec::new();
    let mut i: usize = 0;
    while i < tasks.len()
        invariant
            i <= tasks@.len(),
            views == task_views(tasks@),
            task_views(out@) == by_recency(views.take(i as int)),
        decreases tasks@.len() - i,
    {
        let t = tasks[i].duplicate();
        let k = recency_slot(&out, &t);
        proof {
            lemma_first_older(task_views(out@), t@, 0);
        }
        let ghost before = out@;
        out.insert(k, t);
        proof {
            assert(task_views(out@) =~= task_views(before).insert(k as int, t@));
            assert(views.take(i + 1).drop_last() =~= views.take(i as int));
            assert(views.take(i + 1).last() == views[i as int]);
        }
        i = i + 1;
    }
    proof {
        assert(views.take(tasks@.len() as int) =~= views);
    }
    out
}

/// A task read back after it was written is the one written.
pub proof fn law_task_upsert_then_find(tasks: Seq<ManageTaskView>, task: ManageTaskView)
    ensures
        task_with_id(tasks_after_upsert(tasks, task), task.task_id) == Some(task),
{
    let after = tasks_after_upsert(tasks, task);
    lemma_task_slot(tasks, task.task_id);
    match task_slot(tasks, task.task_id) {
        Some(i) => {
            lemma_task_slot_at(after, task.task_id, i);
        },
        None => {
            let n = tasks.len() as int;
            assert forall|j: int| 0 <= j < n implies after[j].task_id != task.task_id by {
                assert(after[j] == tasks[j]);
            }
            lemma_task_slot_at(after, task.task_id, n);
        },
    }
}

/// No two tasks of the list have the same id.
pub open spec fn distinct_task_ids(tasks: Seq<ManageTaskView>) -> bool {
    forall|i: int, j: int| 0 <= i < j < tasks.len() ==> #[trigger] tasks[i].task_id != #[trigger] tasks[j].task_id
}

/// Writes never make two tasks of a list share an id, and a write of a stored id keeps
/// the number of tasks.
pub proof fn law_task_upsert_keeps_ids_distinct(tasks: Seq<ManageTaskView>, task: ManageTaskView)
    requires
        distinct_task_ids(tasks),
    ensures
        distinct_task_ids(tasks_after_upsert(tasks, task)),
        task_slot(tasks, task.task_id) is Some ==> tasks_after_upsert(tasks, task).len() == tasks.len(),
        task_slot(tasks, task.task_id) is None ==> tasks_after_upsert(tasks, task).len() == tasks.len() + 1,
{
    lemma_task_slot(tasks, task.task_id);
    let after = tasks_after_upsert(tasks, task);
    assert forall|i: int, j: int| 0 <= i < j < after.len() implies #[trigger] after[i].task_id != #[trigger] after[j].task_id by {
        match task_slot(tasks, task.task_id) {
            Some(k) => {
                if i == k {
                    assert(after[j] == tasks[j]);
                    assert(tasks[k].task_id != tasks[j].task_id);
                } else if j == k {
                    assert(after[i] == tasks[i]);
                    assert(tasks[i].task_id != tasks[k].task_id);
                } else {
                    assert(after[i] == tasks[i] && after[j] == tasks[j]);
                }
            },
            None => {
                if j == tasks.len() {
                    assert(after[i] == tasks[i]);
                } else {
                    assert(after[i] == tasks[i] && after[j] == tasks[j]);
                }
            },
        }
    }
}

/// The task ids of a thread's index with `task_id` added at the end, unless it is
/// already there.
pub open spec fn index_with(ids: Seq<Seq<char>>, task_id: Seq<char>) -> Seq<Seq<char>> {
    if ids.contains(task_id) {
        ids
    } else {
        ids.push(task_id)
    }
}

/// Adds a task id to a thread's index unless it is already there.
pub fn add_to_task_index(ids: &mut Vec<String>, task_id: &str)
    ensures
        texts_of(final(ids)@) == index_with(texts_of(old(ids)@), task_id@),
{
    let ghost texts = texts_of(ids@);
    let mut i: usize = 0;
    while i < ids.len()
        invariant
            i <= ids@.len(),
            texts == texts_of(ids@),
            forall|j: int| 0 <= j < i ==> texts[j] != task_id@,
        decreases ids@.len() - i,
    {
        if str_eq(ids[i].as_str(), task_id) {
            assert(texts[i as int] == task_id@);
            return;
        }
        i = i + 1;
    }
    assert(!texts.contains(task_id@));
    ids.push(task_id.to_string());
    assert(texts_of(ids@) =~= texts.push(task_id@));
}

/// The strings of a JSON text that holds an array of strings, or the parser's message.
pub uninterp spec fn json_string_list(text: Seq<char>) -> Result<Seq<Seq<char>>, Seq<char>>;

/// The strings of a JSON value that is an array of strings, or the decoder's message.
pub uninterp spec fn json_value_string_list(v: serde_json::Value) -> Result<Seq<Seq<char>>, Seq<char>>;

/// The instant of an RFC 3339 date-time text as seconds and nanoseconds since the Unix
/// epoch in UTC, or the parser's message.
pub uninterp spec fn rfc3339_instant(text: Seq<char>) -> Result<(i64, u32), Seq<char>>;

/// Parses a JSON text as a list of strings.
///
/// Calls `serde_json::from_str::<Vec<String>>`; the list or the error's display text is
/// what that call gives for this text, named `json_string_list`.
#[verifier::external_body]
pub(crate) fn parse_string_list(text: &str) -> (r: Result<Vec<String>, String>)
    ensures
        match r {
            Ok(v) => json_string_list(text@) == Ok::<Seq<Seq<char>>, Seq<char>>(texts_of(v@)),
            Err(m) => json_string_list(text@) == Err::<Seq<Seq<char>>, Seq<char>>(m@),
        },
{
    match serde_json::from_str::<Vec<String>>(text) {
        Ok(v) => Ok(v),
        Err(e) => Err(e.to_string()),
    }
}

/// Decodes a JSON value as a list of strings.
///
/// Calls `serde_json::from_value::<Vec<String>>` on a clone of the value; the list or the error's display text
/// is what that call gives for this value, named `json_value_string_list`.
#[verifier::external_body]
fn decode_string_list(v: &serde_json::Value) -> (r: Result<Vec<String>, String>)
    ensures
        match r {
            Ok(l) => json_value_string_list(*v) == Ok::<Seq<Seq<char>>, Seq<char>>(texts_of(l@)),
            Err(m) => json_value_string_list(*v) == Err::<Seq<Seq<char>>, Seq<char>>(m@),
        },
{
    match serde_json::from_value::<Vec<String>>(v.clone()) {
        Ok(l) => Ok(l),
        Err(e) => Err(e.to_string()),
    }
}

/// Parses an RFC 3339 date-time.
///
/// Calls `chrono::DateTime::parse_from_rfc3339`, converts the instant to UTC
/// (`with_timezone`) and reads its seconds and nanoseconds (`timestamp`,
/// `timestamp_subsec_nanos`); the instant or the error's display text is what those
/// calls give for this text, named `rfc3339_instant`.
#[verifier::external_body]
fn parse_rfc3339_instant(text: &str) -> (r: Result<UtcTimestamp, String>)
    ensures
        match r {
            Ok(t) => rfc3339_instant(text@) == Ok::<(i64, u32), Seq<char>>((t.secs, t.nanos)),
            Err(m) => rfc3339_instant(text@) == Err::<(i64, u32), Seq<char>>(m@),
        },
{
    match chrono::DateTime::parse_from_rfc3339(text) {
        Ok(d) => {
            let u = d.with_timezone(&chrono::Utc);
            Ok(UtcTimestamp { secs: u.timestamp(), nanos: u.timestamp_subsec_nanos() })
        },
        Err(e) => Err(e.to_string()),
    }
}

/// The task ids of a thread index document: the list it holds, or none when it does
/// not hold a list of strings.
pub fn task_index_ids(text: &str) -> (r: Vec<String>)
    ensures
        match json_string_list(text@) {
            Ok(ids) => texts_of(r@) == ids,
            Err(_) => r@.len() == 0,
        },
{
    match parse_string_list(text) {
        Ok(ids) => ids,
        Err(_) => Vec::new(),
    }
}

/// The tasks that were found, in the order they were looked up.
pub open spec fn found_tasks(found: Seq<Option<ManageTaskRecord>>) -> Seq<ManageTaskView>
    decreases found.len(),
{
    if found.len() == 0 {
        Seq::empty()
    } else {
        match found.last() {
            Some(t) => found_tasks(found.drop_last()).push(t@),
            None => found_tasks(found.drop_last()),
        }
    }
}

/// The listing of a thread's tasks from the lookups of its indexed ids: the tasks that
/// exist, newest first.
pub fn list_found_tasks(found: Vec<Option<ManageTaskRecord>>) -> (r: Vec<ManageTaskRecord>)
    ensures
        task_views(r@) == by_recency(found_tasks(found@)),
{
    let mut present: Vec<ManageTaskRecord> = Vec::new();
    let mut i: usize = 0;
    while i < found.len()
        invariant
            i <= found@.len(),
            task_views(present@) == found_tasks(found@.take(i as int)),
        decreases found@.len() - i,
    {
        assert(found@.take(i + 1).drop_last() =~= found@.take(i as int));
        match &found[i] {
            Some(t) => {
                let ghost before = present@;
                present.push(t.duplicate());
                assert(task_views(present@) =~= task_views(before).push(t@));
            },
            None => {},
        }
        i = i + 1;
    }
    assert(found@.take(found@.len() as int) =~= found@);
    order_newest_first(present)
}

/// A row of the SQLite `manage_tasks` table: texts for the output list and the instants,
/// an integer for the stream flag.
#[derive(Debug)]
pub struct SqliteTaskRow {
    pub task_id: String,
    pub thread_id: String,
    pub status: String,
    pub output_chunks: String,
    pub error: Option<String>,
    pub callback_url: Option<String>,
    pub stream: i64,
    pub client_task_id: Option<String>,
    pub tenant_id: String,
    pub user_id: String,
    pub created_at: String,
    pub updated_at: String,
    pub version: i64,
}

/// The task a SQLite row holds, given its decoded output list and instants.
pub open spec fn sqlite_row_task(row: SqliteTaskRow, chunks: Seq<Seq<char>>, created_at: UtcTimestamp, updated_at: UtcTimestamp) -> ManageTaskView {
    ManageTaskView {
        task_id: row.task_id@,
        thread_id: row.thread_id@,
        status: row.status@,
        output_chunks: chunks,
        error: opt_text(row.error),
        callback_url: opt_text(row.callback_url),
        stream: row.stream != 0,
        client_task_id: opt_text(row.client_task_id),
        tenant_id: row.tenant_id@,
        user_id: row.user_id@,
        created_at,
        updated_at,
        version: row.version,
    }
}

/// The instant of a parsed pair of seconds and nanoseconds.
pub open spec fn instant_of(p: (i64, u32)) -> UtcTimestamp {
    UtcTimestamp { secs: p.0, nanos: p.1 }
}

/// What a SQLite row decodes to: the task, or the message of the first field that does
/// not decode (the output list, then the creation instant, then the update instant).
pub open spec fn sqlite_row_decoded(row: SqliteTaskRow) -> Result<ManageTaskView, Seq<char>> {
    match json_string_list(row.output_chunks@) {
        Err(m) => Err("decode output_chunks: "@ + m),
        Ok(chunks) => match rfc3339_instant(row.created_at@) {
            Err(m) => Err(m),
            Ok(c) => match rfc3339_instant(row.updated_at@) {
                Err(m) => Err(m),
                Ok(u) => Ok(sqlite_row_task(row, chunks, instant_of(c), instant_of(u))),
            },
        },
    }
}

fn copy_opt_text(o: &Option<String>) -> (r: Option<String>)
    ensures
        opt_text(r) == opt_text(*o),
{
    match o {
        Some(s) => Some(s.clone()),
        None => None,
    }
}

fn backend_error(prefix: &str, message: String) -> (r: StateError)
    ensures
        r matches StateError::Backend(m) && m@ == prefix@ + message@,
{
    let mut m = prefix.to_string();
    m.append(message.as_str());
    StateError::Backend(m)
}

/// The task of a SQLite row whose output list and instants were decoded: the first
/// decoding error (output list, creation instant, update instant) as a backend error,
/// the output-list one prefixed with `decode output_chunks: `.
pub fn task_from_sqlite_parts(
    row: &SqliteTaskRow,
    chunks: Result<Vec<String>, String>,
    created_at: Result<UtcTimestamp, String>,
    updated_at: Result<UtcTimestamp, String>,
) -> (r: Result<ManageTaskRecord, StateError>)
    ensures
        match (chunks, created_at, updated_at) {
            (Err(m), _, _) => r matches Err(StateError::Backend(e)) && e@ == "decode output_chunks: "@ + m@,
            (Ok(_), Err(m), _) => r matches Err(StateError::Backend(e)) && e@ == m@,
            (Ok(_), Ok(_), Err(m)) => r matches Err(StateError::Backend(e)) && e@ == m@,
            (Ok(c), Ok(ca), Ok(ua)) => r matches Ok(t) && t@ == sqlite_row_task(*row, texts_of(c@), ca, ua),
        },
{
    let chunks = match chunks {
        Ok(c) => c,
        Err(m) => {
            return Err(backend_error("decode output_chunks: ", m));
        },
    };
    let created_at = match created_at {
        Ok(t) => t,
        Err(m) => {
            return Err(StateError::Backend(m));
        },
    };
    let updated_at = match updated_at {
        Ok(t) => t,
        Err(m) => {
            return Err(StateError::Backend(m));
        },
    };
    Ok(ManageTaskRecord {
        task_id: row.task_id.clone(),
        thread_id: row.thread_id.clone(),
        status: row.status.clone(),
        output_chunks: chunks,
        error: copy_opt_text(&row.error),
        callback_url: copy_opt_text(&row.callback_url),
        stream: row.stream != 0,
        client_task_id: copy_opt_text(&row.client_task_id),
        tenant_id: row.tenant_id.clone(),
        user_id: row.user_id.clone(),
        created_at,
        updated_at,
        version: row.version,
    })
}

/// Decodes a SQLite row into a task.
pub fn decode_sqlite_task_row(row: &SqliteTaskRow) -> (r: Result<ManageTaskRecord, StateError>)
    ensures
        match sqlite_row_decoded(*row) {
            Ok(t) => r matches Ok(rec) && rec@ == t,
            Err(m) => r matches Err(StateError::Backend(e)) && e@ == m,
        },
{
    let chunks = parse_string_list(row.output_chunks.as_str());
    match chunks {
        Err(_) => task_from_sqlite_parts(row, chunks, Err(String::new()), Err(String::new())),
        Ok(_) => {
            let created_at = parse_rfc3339_instant(row.created_at.as_str());
            match created_at {
                Err(_) => task_from_sqlite_parts(row, chunks, created_at, Err(String::new())),
                Ok(_) => {
                    let updated_at = parse_rfc3339_instant(row.updated_at.as_str());
                    task_from_sqlite_parts(row, chunks, created_at, updated_at)
                },
            }
        },
    }
}

/// Every row decodes.
pub open spec fn sqlite_rows_decode(rows: Seq<SqliteTaskRow>) -> bool {
    forall|i: int| 0 <= i < rows.len() ==> (#[trigger] sqlite_row_decoded(rows[i])) is Ok
}

/// Decodes SQLite rows in order; the first row that does not decode gives the error.
pub fn decode_sqlite_task_rows(rows: &Vec<SqliteTaskRow>) -> (r: Result<Vec<ManageTaskRecord>, StateError>)
    ensures
        r is Ok <==> sqlite_rows_decode(rows@),
        r matches Ok(v) ==> v@.len() == rows@.len() && forall|i: int| 0 <= i < rows@.len() ==> sqlite_row_decoded(#[trigger] rows@[i]) == Ok::<ManageTaskView, Seq<char>>(v@[i]@),
        r matches Err(e) ==> exists|i: int| 0 <= i < rows@.len() && sqlite_rows_decode(rows@.take(i)) && (e matches StateError::Backend(m) && sqlite_row_decoded(#[trigger] rows@[i]) == Err::<ManageTaskView, Seq<char>>(m@)),
{
    let mut out: Vec<ManageTaskRecord> = Vec::new();
    let mut i: usize = 0;
    while i < rows.len()
        invariant
            i <= rows@.len(),
            out@.len() == i,
            sqlite_rows_decode(rows@.take(i as int)),
            forall|j: int| 0 <= j < i ==> sqlite_row_decoded(#[trigger] rows@[j]) == Ok::<ManageTaskView, Seq<char>>(out@[j]@),
        decreases rows@.len() - i,
    {
        match decode_sqlite_task_row(&rows[i]) {
            Ok(t) => {
                out.push(t);
                assert forall|j: int| 0 <= j < i + 1 implies (#[trigger] sqlite_row_decoded(rows@.take(i + 1)[j])) is Ok by {
                    assert(rows@.take(i + 1)[j] == rows@[j]);
                }
            },
            Err(e) => {
                proof {
                    assert(!sqlite_rows_decode(rows@));
                }
                return Err(e);
            },
        }
        i = i + 1;
    }
    proof {
        assert(rows@.take(rows@.len() as int) =~= rows@);
    }
    Ok(out)
}

/// A row of the Postgres `manage_tasks` table: a JSON value for the output list.
#[derive(Debug)]
pub struct PgTaskRow {
    pub task_id: String,
    pub thread_id: String,
    pub status: String,
    pub output_chunks: serde_json::Value,
    pub error: Option<String>,
    pub callback_url: Option<String>,
    pub stream: bool,
    pub client_task_id: Option<String>,
    pub tenant_id: String,
    pub user_id: String,
    pub created_at: UtcTimestamp,
    pub updated_at: UtcTimestamp,
    pub version: i64,
}

/// The task a Postgres row holds, given its decoded output list.
pub open spec fn pg_row_task(row: PgTaskRow, chunks: Seq<Seq<char>>) -> ManageTaskView {
    ManageTaskView {
        task_id: row.task_id@,
        thread_id: row.thread_id@,
        status: row.status@,
        output_chunks: chunks,
        error: opt_text(row.error),
        callback_url: opt_text(row.callback_url),
        stream: row.stream,
        client_task_id: opt_text(row.client_task_id),
        tenant_id: row.tenant_id@,
        user_id: row.user_id@,
        created_at: row.created_at,
        updated_at: row.updated_at,
        version: row.version,
    }
}

/// What a Postgres row decodes to: the task, or the message of its output list.
pub open spec fn pg_row_decoded(row: PgTaskRow) -> Result<ManageTaskView, Seq<char>> {
    match json_value_string_list(row.output_chunks) {
        Err(m) => Err("decode output_chunks: "@ + m),
        Ok(chunks) => Ok(pg_row_task(row, chunks)),
    }
}

/// The task of a Postgres row whose output list was decoded; a decoding error becomes a
/// backend error prefixed with `decode output_chunks: `.
pub fn task_from_pg_parts(row: &PgTaskRow, chunks: Result<Vec<String>, String>) -> (r: Result<ManageTaskRecord, StateError>)
    ensures
        match chunks {
            Err(m) => r matches Err(StateError::Backend(e)) && e@ == "decode output_chunks: "@ + m@,
            Ok(c) => r matches Ok(t) && t@ == pg_row_task(*row, texts_of(c@)),
        },
{
    let chunks = match chunks {
        Ok(c) => c,
        Err(m) => {
            return Err(backend_error("decode output_chunks: ", m));
        },
    };
    Ok(ManageTaskRecord {
        task_id: row.task_id.clone(),
        thread_id: row.thread_id.clone(),
        status: row.status.clone(),
        output_chunks: chunks,
        error: copy_opt_text(&row.error),
        callback_url: copy_opt_text(&row.callback_url),
        stream: row.stream,
        client_task_id: copy_opt_text(&row.client_task_id),
        tenant_id: row.tenant_id.clone(),
        user_id: row.user_id.clone(),
        created_at: row.created_at,
        updated_at: row.updated_at,
        version: row.version,
    })
}

/// Decodes a Postgres row into a task.
pub fn decode_pg_task_row(row: &PgTaskRow) -> (r: Result<ManageTaskRecord, StateError>)
    ensures
        match pg_row_decoded(*row) {
            Ok(t) => r matches Ok(rec) && rec@ == t,
            Err(m) => r matches Err(StateError::Backend(e)) && e@ == m,
        },
{
    let chunks = decode_string_list(&row.output_chunks);
    task_from_pg_parts(row, chunks)
}

/// Every row decodes.
pub open spec fn pg_rows_decode(rows: Seq<PgTaskRow>) -> bool {
    forall|i: int| 0 <= i < rows.len() ==> (#[trigger] pg_row_decoded(rows[i])) is Ok
}

/// Decodes Postgres rows in order; the first row that does not decode gives the error.
pub fn decode_pg_task_rows(rows: &Vec<PgTaskRow>) -> (r: Result<Vec<ManageTaskRecord>, StateError>)
    ensures
        r is Ok <==> pg_rows_decode(rows@),
        r matches Ok(v) ==> v@.len() == rows@.len() && forall|i: int| 0 <= i < rows@.len() ==> pg_row_decoded(#[trigger] rows@[i]) == Ok::<ManageTaskView, Seq<char>>(v@[i]@),
        r matches Err(e) ==> exists|i: int| 0 <= i < rows@.len() && pg_rows_decode(rows@.take(i)) && (e matches StateError::Backend(m) && pg_row_decoded(#[trigger] rows@[i]) == Err::<ManageTaskView, Seq<char>>(m@)),
{
    let mut out: Vec<ManageTaskRecord> = Vec::new();
    let mut i: usize = 0;
    while i < rows.len()
        invariant
            i <= rows@.len(),
            out@.len() == i,
            pg_rows_decode(rows@.take(i as int)),
            forall|j: int| 0 <= j < i ==> pg_row_decoded(#[trigger] rows@[j]) == Ok::<ManageTaskView, Seq<char>>(out@[j]@),
        decreases rows@.len() - i,
    {
        match decode_pg_task_row(&rows[i]) {
            Ok(t) => {
                out.push(t);
                assert forall|j: int| 0 <= j < i + 1 implies (#[trigger] pg_row_decoded(rows@.take(i + 1)[j])) is Ok by {
                    assert(rows@.take(i + 1)[j] == rows@[j]);
                }
            },
            Err(e) => {
                proof {
                    assert(!pg_rows_decode(rows@));
                }
                return Err(e);
            },
        }
        i = i + 1;
    }
    proof {
        assert(rows@.take(rows@.len() as int) =~= rows@);
    }
    Ok(out)
}

/// A SQLite row decodes exactly when its output list and both instants parse, and then
/// every copied column lands in the task field of the same name: the output list is the
/// parsed list, the instants the parsed ones, and the stream flag is set when the column
/// is not zero.
pub proof fn law_sqlite_row_columns_land_in_place(row: SqliteTaskRow)
    ensures
        sqlite_row_decoded(row) is Ok <==> (json_string_list(row.output_chunks@) is Ok && rfc3339_instant(row.created_at@) is Ok
            && rfc3339_instant(row.updated_at@) is Ok),
        match sqlite_row_decoded(row) {
            Ok(t) => {
                &&& t.task_id == row.task_id@
                &&& t.thread_id == row.thread_id@
                &&& t.status == row.status@
                &&& json_string_list(row.output_chunks@) == Ok::<Seq<Seq<char>>, Seq<char>>(t.output_chunks)
                &&& t.error == opt_text(row.error)
                &&& t.callback_url == opt_text(row.callback_url)
                &&& t.stream == (row.stream != 0)
                &&& t.client_task_id == opt_text(row.client_task_id)
                &&& t.tenant_id == row.tenant_id@
                &&& t.user_id == row.user_id@
                &&& rfc3339_instant(row.created_at@) == Ok::<(i64, u32), Seq<char>>((t.created_at.secs, t.created_at.nanos))
                &&& rfc3339_instant(row.updated_at@) == Ok::<(i64, u32), Seq<char>>((t.updated_at.secs, t.updated_at.nanos))
                &&& t.version == row.version
            },
            Err(_) => true,
        },
{
}

/// A Postgres row decodes exactly when its output list does, and then every copied column
/// lands in the task field of the same name, the output list being the decoded one.
pub proof fn law_pg_row_columns_land_in_place(row: PgTaskRow)
    ensures
        pg_row_decoded(row) is Ok <==> json_value_string_list(row.output_chunks) is Ok,
        match pg_row_decoded(row) {
            Ok(t) => {
                &&& t.task_id == row.task_id@
                &&& t.thread_id == row.thread_id@
                &&& t.status == row.status@
                &&& json_value_string_list(row.output_chunks) == Ok::<Seq<Seq<char>>, Seq<char>>(t.output_chunks)
                &&& t.error == opt_text(row.error)
                &&& t.callback_url == opt_text(row.callback_url)
                &&& t.stream == row.stream
                &&& t.client_task_id == opt_text(row.client_task_id)
                &&& t.tenant_id == row.tenant_id@
                &&& t.user_id == row.user_id@
                &&& t.created_at == row.created_at
                &&& t.updated_at == row.updated_at
                &&& t.version == row.version
            },
            Err(_) => true,
        },
{
}

} // verus!
