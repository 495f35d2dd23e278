//! Record lists that stores keep as one document: skills by name and thread records by
//! thread, with replace-or-append writes, lookups and removals.

use vstd::prelude::*;
use crate::errors::StateError;
use crate::ids::{uuid_text, uuid_to_string};
use crate::session::UtcTimestamp;
use crate::text::str_eq;

verus! {

/// A skill and whether it is enabled.
#[derive(Debug, Clone, PartialEq, Eq)]
pub struct SkillRecord {
    pub name: String,
    pub enabled: bool,
}

/// The first position whose skill has this name, if any.
pub open spec fn skill_index(skills: Seq<SkillRecord>, name: Seq<char>) -> Option<int> {
    if exists|i: int| 0 <= i < skills.len() && skills[i].name@ == name {
        Some(choose|i: int| 0 <= i < skills.len() && skills[i].name@ == name && forall|j: int| 0 <= j < i ==> skills[j].name@ != name)
    } else {
        None
    }
}

proof fn lemma_skill_index(skills: Seq<SkillRecord>, name: Seq<char>, i: int)
    requires
        0 <= i < skills.len(),
        skills[i].name@ == name,
        forall|j: int| 0 <= j < i ==> skills[j].name@ != name,
    ensures
        skill_index(skills, name) == Some(i),
{
    let k = choose|k: int| 0 <= k < skills.len() && skills[k].name@ == name && forall|j: int| 0 <= j < k ==> skills[j].name@ != name;
    if k < i {
        assert(skills[k].name@ != name);
    }
    if k > i {
        assert(skills[i].name@ != name);
    }
}

fn find_skill(skills: &Vec<SkillRecord>, name: &str) -> (r: Option<usize>)
    ensures
        match r {
            Some(i) => i < skills@.len() && skills@[i as int].name@ == name@ && skill_index(skills@, name@)
                == Some(i as int),
            None => skill_index(skills@, name@) is None && forall|j: int| 0 <= j < skills@.len()
                ==> skills@[j].name@ != name@,
        },
{
    let mut i: usize = 0;
    while i < skills.len()
        invariant
            i <= skills@.len(),
            forall|j: int| 0 <= j < i ==> skills@[j].name@ != name@,
        decreases skills@.len() - i,
    {
        if str_eq(skills[i].name.as_str(), name) {
            proof {
                lemma_skill_index(skills@, name@, i as int);
            }
            return Some(i);
        }
        i = i + 1;
    }
    None
}

/// The skill list after a write: the first skill of that name replaced, or the record
/// appended when there is none.
pub open spec fn skills_after_put(skills: Seq<SkillRecord>, record: SkillRecord) -> Seq<SkillRecord> {
    match skill_index(skills, record.name@) {
        Some(i) => skills.update(i, record),
        None => skills.push(record),
    }
}

/// The first skill of a name, if any.
pub open spec fn skill_named(skills: Seq<SkillRecord>, name: Seq<char>) -> Option<SkillRecord> {
    match skill_index(skills, name) {
        Some(i) => Some(skills[i]),
        None => None,
    }
}

/// Where skills are kept.
pub trait SkillStore {
    /// Every skill.
    fn list_skills(&self) -> Result<Vec<SkillRecord>, StateError>;

    /// Stores a skill, replacing the one of the same name.
    fn put_skill(&mut self, record: &SkillRecord) -> Result<(), StateError>;

    /// The skill of a name, if stored.
    fn get_skill(&self, name: &str) -> Result<Option<SkillRecord>, StateError>;
}

/// The skill list as one document.
#[derive(Debug, Clone)]
pub struct SkillCatalog {
    pub skills: Vec<SkillRecord>,
}

impl SkillCatalog {
    pub fn new(skills: Vec<SkillRecord>) -> (r: Self)
        ensures
            r.skills@ == skills@,
    {
        SkillCatalog { skills }
    }
}

impl SkillStore for SkillCatalog {
    fn list_skills(&self) -> (r: Result<Vec<SkillRecord>, StateError>)
        ensures
            r matches Ok(v) && v@ == self.skills@,
    {
        let mut out: Vec<SkillRecord> = Vec::new();
        let mut i: usize = 0;
        while i < self.skills.len()
            invariant
                i <= self.skills@.len(),
                out@ == self.skills@.take(i as int),
            decreases self.skills@.len() - i,
        {
            let s = &self.skills[i];
            out.push(SkillRecord { name: s.name.clone(), enabled: s.enabled });
            assert(out@ =~= self.skills@.take(i + 1));
            i = i + 1;
        }
        assert(self.skills@.take(self.skills@.len() as int) =~= self.skills@);
        Ok(out)
    }

    fn put_skill(&mut self, record: &SkillRecord) -> (r: Result<(), StateError>)
        ensures
            r is Ok,
            final(self).skills@ == skills_after_put(old(self).skills@, *record),
    {
        let copy = SkillRecord { name: record.name.clone(), enabled: record.enabled };
        assert(copy == *record);
        match find_skill(&self.skills, record.name.as_str()) {
            Some(i) => {
                self.skills.set(i, copy);
            },
            None => {
                self.skills.push(copy);
            },
        }
        Ok(())
    }

    fn get_skill(&self, name: &str) -> (r: Result<Option<SkillRecord>, StateError>)
        ensures
            r matches Ok(found) && found == skill_named(self.skills@, name@),
    {
        match find_skill(&self.skills, name) {
            Some(i) => {
                let s = &self.skills[i];
                Ok(Some(SkillRecord { name: s.name.clone(), enabled: s.enabled }))
            },
            None => Ok(None),
        }
    }
}

/// A skill read back after it was written is the one written.
pub proof fn law_skill_put_then_get(skills: Seq<SkillRecord>, record: SkillRecord)
    ensures
        skill_named(skills_after_put(skills, record), record.name@) == Some(record),
{
    let after = skills_after_put(skills, record);
    match skill_index(skills, record.name@) {
        Some(i) => {
            lemma_skill_index_props(skills, record.name@);
            lemma_skill_index(after, record.name@, i);
        },
        None => {
            let n = skills.len() as int;
            assert forall|j: int| 0 <= j < n implies after[j].name@ != record.name@ by {
                assert(after[j] == skills[j]);
            }
            lemma_skill_index(after, record.name@, n);
        },
    }
}

/// Writing a skill whose name is stored does not add an entry.
pub proof fn law_skill_put_replaces(skills: Seq<SkillRecord>, record: SkillRecord)
    requires
        skill_index(skills, record.name@) is Some,
    ensures
        skills_after_put(skills, record).len() == skills.len(),
{
    lemma_skill_index_props(skills, record.name@);
}

proof fn lemma_skill_index_props(skills: Seq<SkillRecord>, name: Seq<char>)
    ensures
        match skill_index(skills, name) {
            Some(i) => 0 <= i < skills.len() && skills[i].name@ == name && forall|j: int| 0 <= j < i ==> skills[j].name@ != name,
            None => forall|j: int| 0 <= j < skills.len() ==> skills[j].name@ != name,
        },
{
    if exists|i: int| 0 <= i < skills.len() && skills[i].name@ == name {
        let w = choose|i: int| 0 <= i < skills.len() && skills[i].name@ == name;
        lemma_least_skill(skills, name, w);
    }
}

proof fn lemma_least_skill(skills: Seq<SkillRecord>, name: Seq<char>, w: int)
    requires
        0 <= w < skills.len(),
        skills[w].name@ == name,
    ensures
        exists|i: int| 0 <= i < skills.len() && skills[i].name@ == name && forall|j: int| 0 <= j < i ==> skills[j].name@ != name,
    decreases w,
{
    if exists|j: int| 0 <= j < w && skills[j].name@ == name {
        let j = choose|j: int| 0 <= j < w && skills[j].name@ == name;
        lemma_least_skill(skills, name, j);
    } else {
        assert(0 <= w < skills.len() && skills[w].name@ == name && forall|j: int| 0 <= j < w ==> skills[j].name@ != name);
    }
}

/// The record of a thread.
#[derive(Debug, Clone, PartialEq, Eq)]
pub struct ThreadMeta {
    pub thread_id: u128,
    pub created_at: UtcTimestamp,
    pub updated_at: UtcTimestamp,
    pub label: Option<String>,
}

/// The first position whose record is of this thread, if any.
pub open spec fn thread_index(items: Seq<ThreadMeta>, id: u128) -> Option<int> {
    if exists|i: int| 0 <= i < items.len() && items[i].thread_id == id {
        Some(choose|i: int| 0 <= i < items.len() && items[i].thread_id == id && forall|j: int| 0 <= j < i ==> items[j].thread_id != id)
    } else {
        None
    }
}

proof fn lemma_thread_index(items: Seq<ThreadMeta>, id: u128, i: int)
    requires
        0 <= i < items.len(),
        items[i].thread_id == id,
        forall|j: int| 0 <= j < i ==> items[j].thread_id != id,
    ensures
        thread_index(items, id) == Some(i),
{
    let k = choose|k: int| 0 <= k < items.len() && items[k].thread_id == id && forall|j: int| 0 <= j < k ==> items[j].thread_id != id;
    if k < i {
        assert(items[k].thread_id != id);
    }
    if k > i {
        assert(items[i].thread_id != id);
    }
}

fn find_thread(items: &Vec<ThreadMeta>, id: u128) -> (r: Option<usize>)
    ensures
        match r {
            Some(i) => i < items@.len() && items@[i as int].thread_id == id && thread_index(items@, id)
                == Some(i as int),
            None => thread_index(items@, id) is None && forall|j: int| 0 <= j < items@.len()
                ==> items@[j].thread_id != id,
        },
{
    let mut i: usize = 0;
    while i < items.len()
        invariant
            i <= items@.len(),
            forall|j: int| 0 <= j < i ==> items@[j].thread_id != id,
        decreases items@.len() - i,
    {
        if items[i].thread_id == id {
            proof {
                lemma_thread_index(items@, id, i as int);
            }
            return Some(i);
        }
        i = i + 1;
    }
    None
}

fn copy_meta(m: &ThreadMeta) -> (r: ThreadMeta)
    ensures
        r == *m,
{
    ThreadMeta { thread_id: m.thread_id, created_at: m.created_at, updated_at: m.updated_at, label: m.label.clone() }
}

/// The thread records after a write: the first record of the thread replaced, or the
/// record appended when there is none.
pub open spec fn threads_after_upsert(items: Seq<ThreadMeta>, meta: ThreadMeta) -> Seq<ThreadMeta> {
    match thread_index(items, meta.thread_id) {
        Some(i) => items.update(i, meta),
        None => items.push(meta),
    }
}

/// The thread records without those of one thread.
pub open spec fn threads_without(items: Seq<ThreadMeta>, id: u128) -> Seq<ThreadMeta> {
    items.filter(|m: ThreadMeta| m.thread_id != id)
}

/// Writes a thread record, replacing the thread's first record or appending it.
pub fn upsert_thread(items: &mut Vec<ThreadMeta>, meta: &ThreadMeta)
    ensures
        final(items)@ == threads_after_upsert(old(items)@, *meta),
{
    let copy = copy_meta(meta);
    match find_thread(items, meta.thread_id) {
        Some(i) => {
            items.set(i, copy);
        },
        None => {
            items.push(copy);
        },
    }
}

/// The record of a thread; not found when there is none.
pub fn get_thread(items: &Vec<ThreadMeta>, thread_id: u128) -> (r: Result<ThreadMeta, StateError>)
    ensures
        match thread_index(items@, thread_id) {
            Some(i) => r == Ok::<ThreadMeta, StateError>(items@[i]),
            None => r matches Err(StateError::NotFound(m)) && m@ == uuid_text(thread_id),
        },
{
    match find_thread(items, thread_id) {
        Some(i) => Ok(copy_meta(&items[i])),
        None => Err(StateError::NotFound(uuid_to_string(thread_id))),
    }
}

/// Removes every record of a thread; reports whether any was removed.
pub fn remove_thread(items: &mut Vec<ThreadMeta>, thread_id: u128) -> (removed: bool)
    ensures
        final(items)@ == threads_without(old(items)@, thread_id),
        removed == (thread_index(old(items)@, thread_id) is Some),
{
    let ghost initial = items@;
    let ghost keep = |m: ThreadMeta| m.thread_id != thread_id;
    let mut kept: Vec<ThreadMeta> = Vec::new();
    let mut removed = false;
    let mut i: usize = 0;
    while i < items.len()
        invariant
            i <= items@.len(),
            items@ == initial,
            keep == (|m: ThreadMeta| m.thread_id != thread_id),
            kept@ == initial.take(i as int).filter(keep),
            removed == exists|j: int| 0 <= j < i && initial[j].thread_id == thread_id,
        decreases items@.len() - i,
    {
        proof {
            reveal_with_fuel(Seq::filter, 1);
            assert(initial.take(i + 1).drop_last() =~= initial.take(i as int));
        }
        if items[i].thread_id != thread_id {
            kept.push(copy_meta(&items[i]));
        } else {
            removed = true;
        }
        i = i + 1;
    }
    assert(initial.take(initial.len() as int) =~= initial);
    proof {
        if removed {
            let j = choose|j: int| 0 <= j < initial.len() && initial[j].thread_id == thread_id;
            assert(exists|k: int| 0 <= k < initial.len() && initial[k].thread_id == thread_id);
        }
    }
    *items = kept;
    removed
}

/// Deletes the records of a thread; not found when it has none.
pub fn delete_thread_meta(items: &mut Vec<ThreadMeta>, thread_id: u128) -> (r: Result<(), StateError>)
    ensures
        final(items)@ == threads_without(old(items)@, thread_id),
        thread_index(old(items)@, thread_id) is Some ==> r is Ok,
        thread_index(old(items)@, thread_id) is None ==> (r matches Err(StateError::NotFound(m)) && m@
            == uuid_text(thread_id)),
{
    if remove_thread(items, thread_id) {
        Ok(())
    } else {
        Err(StateError::NotFound(uuid_to_string(thread_id)))
    }
}

proof fn lemma_least_thread(items: Seq<ThreadMeta>, id: u128, w: int)
    requires
        0 <= w < items.len(),
        items[w].thread_id == id,
    ensures
        exists|i: int| 0 <= i < items.len() && items[i].thread_id == id && forall|j: int| 0 <= j < i ==> items[j].thread_id != id,
    decreases w,
{
    if exists|j: int| 0 <= j < w && items[j].thread_id == id {
        let j = choose|j: int| 0 <= j < w && items[j].thread_id == id;
        lemma_least_thread(items, id, j);
    } else {
        assert(0 <= w < items.len() && items[w].thread_id == id && forall|j: int| 0 <= j < w ==> items[j].thread_id != id);
    }
}

proof fn lemma_thread_index_props(items: Seq<ThreadMeta>, id: u128)
    ensures
        match thread_index(items, id) {
            Some(i) => 0 <= i < items.len() && items[i].thread_id == id && forall|j: int| 0 <= j < i ==> items[j].thread_id != id,
            None => forall|j: int| 0 <= j < items.len() ==> items[j].thread_id != id,
        },
{
    if exists|i: int| 0 <= i < items.len() && items[i].thread_id == id {
        let w = choose|i: int| 0 <= i < items.len() && items[i].thread_id == id;
        lemma_least_thread(items, id, w);
    }
}

/// A thread record read back after it was written is the one written.
pub proof fn law_thread_upsert_then_get(items: Seq<ThreadMeta>, meta: ThreadMeta)
    ensures
        thread_index(threads_after_upsert(items, meta), meta.thread_id) matches Some(i)
            && threads_after_upsert(items, meta)[i] == meta,
{
    let after = threads_after_upsert(items, meta);
    lemma_thread_index_props(items, meta.thread_id);
    match thread_index(items, meta.thread_id) {
        Some(i) => {
            lemma_thread_index(after, meta.thread_id, i);
        },
        None => {
            let n = items.len() as int;
            assert forall|j: int| 0 <= j < n implies after[j].thread_id != meta.thread_id by {
                assert(after[j] == items[j]);
            }
            lemma_thread_index(after, meta.thread_id, n);
        },
    }
}

/// After a thread's records are deleted, no record of it is left, and the records of
/// every other thread are kept in order.
pub proof fn law_thread_delete_removes_only_that_thread(items: Seq<ThreadMeta>, id: u128)
    ensures
        thread_index(threads_without(items, id), id) is None,
        forall|other: u128| other != id ==> #[trigger] threads_without(threads_without(items, id), other)
            == threads_without(threads_without(items, other), id),
{
    let rest = threads_without(items, id);
    assert forall|j: int| 0 <= j < rest.len() implies rest[j].thread_id != id by {
        items.lemma_filter_pred(|m: ThreadMeta| m.thread_id != id, j);
    }
    lemma_thread_index_props(rest, id);
    assert forall|other: u128| other != id implies #[trigger] threads_without(threads_without(items, id), other)
        == threads_without(threads_without(items, other), id) by {
        lemma_filters_commute(items, id, other);
    }
}

proof fn lemma_filters_commute(items: Seq<ThreadMeta>, a: u128, b: u128)
    ensures
        threads_without(threads_without(items, a), b) == threads_without(threads_without(items, b), a),
    decreases items.len(),
{
    reveal_with_fuel(Seq::filter, 1);
    if items.len() > 0 {
        lemma_filters_commute(items.drop_last(), a, b);
        let fa = |m: ThreadMeta| m.thread_id != a;
        let fb = |m: ThreadMeta| m.thread_id != b;
        let x = items.last();
        assert(items.drop_last().filter(fa) =~= threads_without(items.drop_last(), a));
        if fa(x) {
            assert(items.filter(fa) =~= items.drop_last().filter(fa).push(x));
            assert(items.filter(fa).drop_last() =~= items.drop_last().filter(fa));
        } else {
            assert(items.filter(fa) =~= items.drop_last().filter(fa));
        }
        if fb(x) {
            assert(items.filter(fb).drop_last() =~= items.drop_last().filter(fb));
        }
        assert(threads_without(threads_without(items, a), b) =~= threads_without(threads_without(items, b), a));
    } else {
        assert(threads_without(threads_without(items, a), b) =~= threads_without(threads_without(items, b), a));
    }
}

} // verus!
