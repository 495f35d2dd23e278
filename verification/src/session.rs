//! Sessions: root sessions, forks that inherit their parent's context and merge its
//! policy with their own, and closing.

use vstd::prelude::*;
use std::collections::HashMap;
use crate::errors::StateError;
use crate::ids::{new_random_id, uuid_text, uuid_to_string};
use crate::json::{
    json_entries, json_object_clone, json_object_extend, json_object_get, json_object_insert,
    json_object_new,
};

verus! {

broadcast use vstd::std_specs::hash::group_hash_axioms;

/// A point in time, UTC: whole seconds since the Unix epoch and the nanoseconds past them.
#[derive(Debug, Clone, Copy, PartialEq, Eq, Structural)]
pub struct UtcTimestamp {
    pub secs: i64,
    pub nanos: u32,
}

/// The current time.
///
/// Calls `chrono::Utc::now` and reads the instant's seconds and nanoseconds
/// (`DateTime::timestamp`, `DateTime::timestamp_subsec_nanos`); the value is the clock's,
/// and nothing is claimed of it.
#[verifier::external_body]
fn utc_now() -> UtcTimestamp {
    let now = chrono::Utc::now();
    UtcTimestamp { secs: now.timestamp(), nanos: now.timestamp_subsec_nanos() }
}

/// Values that describe where a session runs (channel, user, ...).
#[derive(Debug, PartialEq)]
pub struct SessionContext {
    values: serde_json::Map<String, serde_json::Value>,
}

impl View for SessionContext {
    type V = Map<Seq<char>, serde_json::Value>;

    closed spec fn view(&self) -> Map<Seq<char>, serde_json::Value> {
        json_entries(self.values)
    }
}

impl Default for SessionContext {
    fn default() -> (r: Self)
        ensures
            r@ == Map::<Seq<char>, serde_json::Value>::empty(),
    {
        Self::new()
    }
}

impl Clone for SessionContext {
    fn clone(&self) -> (r: Self)
        ensures
            r@ == self@,
    {
        self.duplicate()
    }
}

impl SessionContext {
    pub fn new() -> (r: Self)
        ensures
            r@ == Map::<Seq<char>, serde_json::Value>::empty(),
    {
        let r = SessionContext { values: json_object_new() };
        assert(r@ =~= Map::<Seq<char>, serde_json::Value>::empty());
        r
    }

    /// Sets the value of `key`.
    pub fn insert(&mut self, key: &str, value: serde_json::Value)
        ensures
            final(self)@ == old(self)@.insert(key@, value),
    {
        json_object_insert(&mut self.values, key.to_string(), value);
    }

    /// The value of `key`, if set.
    pub fn get(&self, key: &str) -> (r: Option<&serde_json::Value>)
        ensures
            match r {
                Some(v) => self@.contains_key(key@) && self@[key@] == *v,
                None => !self@.contains_key(key@),
            },
    {
        json_object_get(&self.values, key)
    }

    /// A copy with the same entries.
    pub fn duplicate(&self) -> (r: Self)
        ensures
            r@ == self@,
    {
        SessionContext { values: json_object_clone(&self.values) }
    }
}

/// Settings that govern a session (mode, limits, sandboxing, ...).
#[derive(Debug, PartialEq)]
pub struct SessionPolicy {
    values: serde_json::Map<String, serde_json::Value>,
}

impl View for SessionPolicy {
    type V = Map<Seq<char>, serde_json::Value>;

    closed spec fn view(&self) -> Map<Seq<char>, serde_json::Value> {
        json_entries(self.values)
    }
}

impl Default for SessionPolicy {
    fn default() -> (r: Self)
        ensures
            r@ == Map::<Seq<char>, serde_json::Value>::empty(),
    {
        Self::new()
    }
}

impl Clone for SessionPolicy {
    fn clone(&self) -> (r: Self)
        ensures
            r@ == self@,
    {
        self.duplicate()
    }
}

impl SessionPolicy {
    pub fn new() -> (r: Self)
        ensures
            r@ == Map::<Seq<char>, serde_json::Value>::empty(),
    {
        let r = SessionPolicy { values: json_object_new() };
        assert(r@ =~= Map::<Seq<char>, serde_json::Value>::empty());
        r
    }

    /// Sets the value of `key`.
    pub fn insert(&mut self, key: &str, value: serde_json::Value)
        ensures
            final(self)@ == old(self)@.insert(key@, value),
    {
        json_object_insert(&mut self.values, key.to_string(), value);
    }

    /// The value of `key`, if set.
    pub fn get(&self, key: &str) -> (r: Option<&serde_json::Value>)
        ensures
            match r {
                Some(v) => self@.contains_key(key@) && self@[key@] == *v,
                None => !self@.contains_key(key@),
            },
    {
        json_object_get(&self.values, key)
    }

    /// A copy with the same entries.
    pub fn duplicate(&self) -> (r: Self)
        ensures
            r@ == self@,
    {
        SessionPolicy { values: json_object_clone(&self.values) }
    }

    /// This policy with the entries of `local_override` laid over it: a key set in the
    /// override takes the override's value, every other key keeps this policy's value.
    pub fn merged_with(&self, local_override: &SessionPolicy) -> (r: SessionPolicy)
        ensures
            r@ == self@.union_prefer_right(local_override@),
    {
        let mut values = json_object_clone(&self.values);
        json_object_extend(&mut values, json_object_clone(&local_override.values));
        SessionPolicy { values }
    }
}

/// What a new root session starts with.
#[derive(Debug, PartialEq)]
pub struct CreateSessionRequest {
    pub attached_thread_id: Option<u128>,
    pub context: SessionContext,
    pub policy: SessionPolicy,
}

impl Default for CreateSessionRequest {
    fn default() -> (r: Self)
        ensures
            r.attached_thread_id is None,
            r.context@ == Map::<Seq<char>, serde_json::Value>::empty(),
            r.policy@ == Map::<Seq<char>, serde_json::Value>::empty(),
    {
        CreateSessionRequest {
            attached_thread_id: None,
            context: SessionContext::new(),
            policy: SessionPolicy::new(),
        }
    }
}

/// What a fork of an existing session is made from.
#[derive(Debug, PartialEq)]
pub struct ForkSessionRequest {
    pub parent_session_id: u128,
    pub attached_thread_id: Option<u128>,
    pub local_policy: SessionPolicy,
}

#[derive(Debug, Clone, Copy, PartialEq, Eq, Structural)]
pub enum SessionLifecycleState {
    Active,
    Closed,
}

/// A session as the core holds it.
#[derive(Debug, PartialEq)]
pub struct SessionRecord {
    pub session_id: u128,
    pub parent_session_id: Option<u128>,
    pub child_session_ids: Vec<u128>,
    pub attached_thread_id: Option<u128>,
    pub context: SessionContext,
    /// The effective policy: the parent's, overridden by `local_policy`.
    pub policy: SessionPolicy,
    /// The policy given when the session was made.
    pub local_policy: SessionPolicy,
    pub lifecycle_state: SessionLifecycleState,
    pub created_at: UtcTimestamp,
    pub updated_at: UtcTimestamp,
    pub closed_at: Option<UtcTimestamp>,
}

/// Mathematical value of a [`SessionRecord`].
pub struct SessionView {
    pub session_id: u128,
    pub parent_session_id: Option<u128>,
    pub child_session_ids: Seq<u128>,
    pub attached_thread_id: Option<u128>,
    pub context: Map<Seq<char>, serde_json::Value>,
    pub policy: Map<Seq<char>, serde_json::Value>,
    pub local_policy: Map<Seq<char>, serde_json::Value>,
    pub lifecycle_state: SessionLifecycleState,
    pub created_at: UtcTimestamp,
    pub updated_at: UtcTimestamp,
    pub closed_at: Option<UtcTimestamp>,
}

impl View for SessionRecord {
    type V = SessionView;

    open spec fn view(&self) -> SessionView {
        SessionView {
            session_id: self.session_id,
            parent_session_id: self.parent_session_id,
            child_session_ids: self.child_session_ids@,
            attached_thread_id: self.attached_thread_id,
            context: self.context@,
            policy: self.policy@,
            local_policy: self.local_policy@,
            lifecycle_state: self.lifecycle_state,
            created_at: self.created_at,
            updated_at: self.updated_at,
            closed_at: self.closed_at,
        }
    }
}

impl Clone for SessionRecord {
    fn clone(&self) -> (r: Self)
        ensures
            r@ == self@,
    {
        self.duplicate()
    }
}

impl SessionRecord {
    /// A copy with the same value.
    pub fn duplicate(&self) -> (r: Self)
        ensures
            r@ == self@,
    {
        let children = self.child_session_ids.clone();
        assert(children@ =~= self.child_session_ids@);
        SessionRecord {
            session_id: self.session_id,
            parent_session_id: self.parent_session_id,
            child_session_ids: children,
            attached_thread_id: self.attached_thread_id,
            context: self.context.duplicate(),
            policy: self.policy.duplicate(),
            local_policy: self.local_policy.duplicate(),
            lifecycle_state: self.lifecycle_state,
            created_at: self.created_at,
            updated_at: self.updated_at,
            closed_at: self.closed_at,
        }
    }
}

/// A new root session: no parent, no children, active, its policy both effective and local.
pub open spec fn root_session(
    id: u128,
    now: UtcTimestamp,
    attached_thread_id: Option<u128>,
    context: Map<Seq<char>, serde_json::Value>,
    policy: Map<Seq<char>, serde_json::Value>,
) -> SessionView {
    SessionView {
        session_id: id,
        parent_session_id: None,
        child_session_ids: Seq::empty(),
        attached_thread_id,
        context,
        policy,
        local_policy: policy,
        lifecycle_state: SessionLifecycleState::Active,
        created_at: now,
        updated_at: now,
        closed_at: None,
    }
}

/// A fork of `parent`: the parent's context, the parent's policy overridden by `local`,
/// and the requested thread, or else the parent's.
pub open spec fn forked_session(
    id: u128,
    now: UtcTimestamp,
    parent: SessionView,
    attached_thread_id: Option<u128>,
    local: Map<Seq<char>, serde_json::Value>,
) -> SessionView {
    SessionView {
        session_id: id,
        parent_session_id: Some(parent.session_id),
        child_session_ids: Seq::empty(),
        attached_thread_id: if attached_thread_id is Some {
            attached_thread_id
        } else {
            parent.attached_thread_id
        },
        context: parent.context,
        policy: parent.policy.union_prefer_right(local),
        local_policy: local,
        lifecycle_state: SessionLifecycleState::Active,
        created_at: now,
        updated_at: now,
        closed_at: None,
    }
}

/// `parent` after a fork: the child appended to its children, and touched at `now`.
pub open spec fn with_child(parent: SessionView, child: u128, now: UtcTimestamp) -> SessionView {
    SessionView {
        session_id: parent.session_id,
        parent_session_id: parent.parent_session_id,
        child_session_ids: parent.child_session_ids.push(child),
        attached_thread_id: parent.attached_thread_id,
        context: parent.context,
        policy: parent.policy,
        local_policy: parent.local_policy,
        lifecycle_state: parent.lifecycle_state,
        created_at: parent.created_at,
        updated_at: now,
        closed_at: parent.closed_at,
    }
}

/// `s` after a close at `now`; a closed session stays as it is.
pub open spec fn closed_session(s: SessionView, now: UtcTimestamp) -> SessionView {
    if s.lifecycle_state == SessionLifecycleState::Closed {
        s
    } else {
        SessionView {
            session_id: s.session_id,
            parent_session_id: s.parent_session_id,
            child_session_ids: s.child_session_ids,
            attached_thread_id: s.attached_thread_id,
            context: s.context,
            policy: s.policy,
            local_policy: s.local_policy,
            lifecycle_state: SessionLifecycleState::Closed,
            created_at: s.created_at,
            updated_at: now,
            closed_at: Some(now),
        }
    }
}

pub open spec fn session_not_found_message(id: u128) -> Seq<char> {
    "session "@ + uuid_text(id) + " was not found"@
}

pub open spec fn session_closed_message(id: u128) -> Seq<char> {
    "session "@ + uuid_text(id) + " is closed and cannot be attached"@
}

pub open spec fn parent_not_found_message(id: u128) -> Seq<char> {
    "parent session "@ + uuid_text(id) + " was not found"@
}

pub open spec fn parent_closed_message(id: u128) -> Seq<char> {
    "parent session "@ + uuid_text(id) + " is closed and cannot be forked"@
}

fn id_message(before: &str, id: u128, after: &str) -> (r: String)
    ensures
        r@ == before@ + uuid_text(id) + after@,
{
    let mut m = before.to_string();
    let text = uuid_to_string(id);
    m.append(text.as_str());
    m.append(after);
    m
}

/// The sessions of a process, by id.
pub struct SessionCore {
    sessions: HashMap<u128, SessionRecord>,
}

impl View for SessionCore {
    type V = Map<u128, SessionView>;

    closed spec fn view(&self) -> Map<u128, SessionView> {
        self.sessions@.map_values(|r: SessionRecord| r@)
    }
}

impl SessionCore {
    /// Every session is filed under its own id.
    #[verifier::type_invariant]
    closed spec fn filed_by_id(&self) -> bool {
        forall|k: u128| #[trigger] self.sessions@.contains_key(k) ==> self.sessions@[k].session_id == k
    }

    pub fn new() -> (r: Self)
        ensures
            r@ == Map::<u128, SessionView>::empty(),
    {
        let r = SessionCore { sessions: HashMap::new() };
        assert(r@ =~= Map::<u128, SessionView>::empty());
        r
    }

    fn store(&mut self, record: SessionRecord)
        ensures
            final(self)@ == old(self)@.insert(record.session_id, record@),
    {
        proof {
            use_type_invariant(&*self);
        }
        let id = record.session_id;
        let ghost rv = record@;
        let mut sessions = HashMap::new();
        std::mem::swap(&mut sessions, &mut self.sessions);
        sessions.insert(id, record);
        self.sessions = sessions;
        assert(self@ =~= old(self)@.insert(id, rv));
    }

    /// Makes a root session with the given id at the given time.
    pub fn create_session_with(
        &mut self,
        session_id: u128,
        now: UtcTimestamp,
        request: CreateSessionRequest,
    ) -> (r: Result<SessionRecord, StateError>)
        ensures
            r matches Ok(s) && s@ == root_session(
                session_id,
                now,
                request.attached_thread_id,
                request.context@,
                request.policy@,
            ) && final(self)@ == old(self)@.insert(session_id, s@),
    {
        let local = request.policy.duplicate();
        let session = SessionRecord {
            session_id,
            parent_session_id: None,
            child_session_ids: Vec::new(),
            attached_thread_id: request.attached_thread_id,
            context: request.context,
            policy: request.policy,
            local_policy: local,
            lifecycle_state: SessionLifecycleState::Active,
            created_at: now,
            updated_at: now,
            closed_at: None,
        };
        assert(session.child_session_ids@ =~= Seq::<u128>::empty());
        self.store(session.duplicate());
        Ok(session)
    }

    /// Makes a root session under a fresh random id, created now.
    pub fn create_session(&mut self, request: CreateSessionRequest) -> (r: Result<SessionRecord, StateError>)
        ensures
            r matches Ok(s) && s@ == root_session(
                s.session_id,
                s.created_at,
                request.attached_thread_id,
                request.context@,
                request.policy@,
            ) && final(self)@ == old(self)@.insert(s.session_id, s@),
    {
        let id = new_random_id();
        let now = utc_now();
        self.create_session_with(id, now, request)
    }

    /// The session with this id.
    pub fn session(&self, session_id: u128) -> (r: Result<SessionRecord, StateError>)
        ensures
            self@.contains_key(session_id) ==> (r matches Ok(s) && s@ == self@[session_id]),
            !self@.contains_key(session_id) ==> (r matches Err(StateError::NotFound(m))
                && m@ == session_not_found_message(session_id)),
    {
        proof {
            use_type_invariant(self);
        }
        match self.sessions.get(&session_id) {
            Some(s) => Ok(s.duplicate()),
            None => Err(StateError::NotFound(id_message("session ", session_id, " was not found"))),
        }
    }

    /// The session with this id, which must not be closed.
    pub fn attach_session(&self, session_id: u128) -> (r: Result<SessionRecord, StateError>)
        ensures
            !self@.contains_key(session_id) ==> (r matches Err(StateError::NotFound(m))
                && m@ == session_not_found_message(session_id)),
            self@.contains_key(session_id) && self@[session_id].lifecycle_state == SessionLifecycleState::Closed
                ==> (r matches Err(StateError::Conflict(m)) && m@ == session_closed_message(session_id)),
            self@.contains_key(session_id) && self@[session_id].lifecycle_state == SessionLifecycleState::Active
                ==> (r matches Ok(s) && s@ == self@[session_id]),
    {
        let session = self.session(session_id)?;
        if session.lifecycle_state == SessionLifecycleState::Closed {
            return Err(
                StateError::Conflict(
                    id_message("session ", session_id, " is closed and cannot be attached"),
                ),
            );
        }
        Ok(session)
    }

    /// Forks the session `request.parent_session_id` into a child with the given id, made
    /// at the given time; the parent records the child.
    pub fn fork_session_with(
        &mut self,
        child_id: u128,
        now: UtcTimestamp,
        request: ForkSessionRequest,
    ) -> (r: Result<SessionRecord, StateError>)
        ensures
            ({
                let pid = request.parent_session_id;
                if !old(self)@.contains_key(pid) {
                    &&& r matches Err(StateError::NotFound(m)) && m@ == parent_not_found_message(pid)
                    &&& final(self)@ == old(self)@
                } else if old(self)@[pid].lifecycle_state == SessionLifecycleState::Closed {
                    &&& r matches Err(StateError::Conflict(m)) && m@ == parent_closed_message(pid)
                    &&& final(self)@ == old(self)@
                } else {
                    &&& r matches Ok(c) && c@ == forked_session(
                        child_id,
                        now,
                        old(self)@[pid],
                        request.attached_thread_id,
                        request.local_policy@,
                    )
                    &&& final(self)@ == old(self)@.insert(pid, with_child(old(self)@[pid], child_id, now)).insert(
                        child_id,
                        forked_session(child_id, now, old(self)@[pid], request.attached_thread_id, request.local_policy@),
                    )
                }
            }),
    {
        proof {
            use_type_invariant(&*self);
        }
        let pid = request.parent_session_id;
        let (child, updated_parent) = match self.sessions.get(&pid) {
            None => {
                return Err(StateError::NotFound(id_message("parent session ", pid, " was not found")));
            },
            Some(parent) => {
                if parent.lifecycle_state == SessionLifecycleState::Closed {
                    return Err(
                        StateError::Conflict(
                            id_message("parent session ", pid, " is closed and cannot be forked"),
                        ),
                    );
                }
                let attached = match request.attached_thread_id {
                    Some(t) => Some(t),
                    None => parent.attached_thread_id,
                };
                let policy = parent.policy.merged_with(&request.local_policy);
                let child = SessionRecord {
                    session_id: child_id,
                    parent_session_id: Some(parent.session_id),
                    child_session_ids: Vec::new(),
                    attached_thread_id: attached,
                    context: parent.context.duplicate(),
                    policy,
                    local_policy: request.local_policy,
                    lifecycle_state: SessionLifecycleState::Active,
                    created_at: now,
                    updated_at: now,
                    closed_at: None,
                };
                let mut updated = parent.duplicate();
                updated.child_session_ids.push(child_id);
                updated.updated_at = now;
                (child, updated)
            },
        };
        proof {
            let parent = old(self)@[pid];
            assert(child@.child_session_ids =~= Seq::<u128>::empty());
            assert(child@ == forked_session(child_id, now, parent, request.attached_thread_id, request.local_policy@));
            assert(updated_parent@ == with_child(parent, child_id, now));
        }
        self.store(updated_parent);
        self.store(child.duplicate());
        Ok(child)
    }

    /// Forks a session into a child under a fresh random id, made now.
    pub fn fork_session(&mut self, request: ForkSessionRequest) -> (r: Result<SessionRecord, StateError>)
        ensures
            ({
                let pid = request.parent_session_id;
                if !old(self)@.contains_key(pid) {
                    &&& r matches Err(StateError::NotFound(m)) && m@ == parent_not_found_message(pid)
                    &&& final(self)@ == old(self)@
                } else if old(self)@[pid].lifecycle_state == SessionLifecycleState::Closed {
                    &&& r matches Err(StateError::Conflict(m)) && m@ == parent_closed_message(pid)
                    &&& final(self)@ == old(self)@
                } else {
                    &&& r matches Ok(c) && c@ == forked_session(
                        c.session_id,
                        c.created_at,
                        old(self)@[pid],
                        request.attached_thread_id,
                        request.local_policy@,
                    ) && final(self)@ == old(self)@.insert(
                        pid,
                        with_child(old(self)@[pid], c.session_id, c.created_at),
                    ).insert(c.session_id, c@)
                }
            }),
    {
        let id = new_random_id();
        let now = utc_now();
        self.fork_session_with(id, now, request)
    }

    /// Closes a session at the given time; closing a closed session changes nothing.
    pub fn close_session_with(&mut self, session_id: u128, now: UtcTimestamp) -> (r: Result<
        SessionRecord,
        StateError,
    >)
        ensures
            !old(self)@.contains_key(session_id) ==> (r matches Err(StateError::NotFound(m))
                && m@ == session_not_found_message(session_id) && final(self)@ == old(self)@),
            old(self)@.contains_key(session_id) ==> (r matches Ok(s) && s@ == closed_session(
                old(self)@[session_id],
                now,
            ) && final(self)@ == old(self)@.insert(session_id, s@)),
    {
        proof {
            use_type_invariant(&*self);
        }
        let mut session = self.session(session_id)?;
        if session.lifecycle_state == SessionLifecycleState::Closed {
            assert(self@ =~= old(self)@.insert(session_id, session@));
            return Ok(session);
        }
        session.lifecycle_state = SessionLifecycleState::Closed;
        session.updated_at = now;
        session.closed_at = Some(now);
        self.store(session.duplicate());
        Ok(session)
    }

    /// Closes a session now.
    pub fn close_session(&mut self, session_id: u128) -> (r: Result<SessionRecord, StateError>)
        ensures
            !old(self)@.contains_key(session_id) ==> (r matches Err(StateError::NotFound(m))
                && m@ == session_not_found_message(session_id) && final(self)@ == old(self)@),
            old(self)@.contains_key(session_id) ==> (r matches Ok(s) && s@ == closed_session(
                old(self)@[session_id],
                s.updated_at,
            ) && final(self)@ == old(self)@.insert(session_id, s@)),
    {
        let now = utc_now();
        self.close_session_with(session_id, now)
    }
}

/// A new session, root or fork, is active, so it can be attached and forked at once.
pub proof fn law_new_sessions_are_active(
    id: u128,
    now: UtcTimestamp,
    parent: SessionView,
    attached_thread_id: Option<u128>,
    context: Map<Seq<char>, serde_json::Value>,
    policy: Map<Seq<char>, serde_json::Value>,
)
    ensures
        root_session(id, now, attached_thread_id, context, policy).lifecycle_state
            == SessionLifecycleState::Active,
        forked_session(id, now, parent, attached_thread_id, policy).lifecycle_state
            == SessionLifecycleState::Active,
{
}

/// Once closed, a session stays closed, so attaching or forking it is refused; closing
/// an active session records when.
pub proof fn law_closed_sessions_stay_closed(s: SessionView, now: UtcTimestamp)
    ensures
        closed_session(s, now).lifecycle_state == SessionLifecycleState::Closed,
        s.lifecycle_state == SessionLifecycleState::Active ==> closed_session(s, now).closed_at == Some(now),
{
}

/// Closing twice is closing once: the second close keeps the first close's times.
pub proof fn law_close_is_idempotent(s: SessionView, first: UtcTimestamp, second: UtcTimestamp)
    ensures
        closed_session(closed_session(s, first), second) == closed_session(s, first),
{
}

/// A fork inherits its parent's context and thread; its policy takes each key from the
/// local policy where that sets it, and from the parent's policy otherwise.
pub proof fn law_fork_inherits_context_and_overrides_policy(
    id: u128,
    now: UtcTimestamp,
    parent: SessionView,
    attached_thread_id: Option<u128>,
    local: Map<Seq<char>, serde_json::Value>,
    key: Seq<char>,
)
    ensures
        ({
            let child = forked_session(id, now, parent, attached_thread_id, local);
            &&& child.parent_session_id == Some(parent.session_id)
            &&& child.context == parent.context
            &&& child.local_policy == local
            &&& attached_thread_id is None ==> child.attached_thread_id == parent.attached_thread_id
            &&& attached_thread_id is Some ==> child.attached_thread_id == attached_thread_id
            &&& local.contains_key(key) ==> child.policy.contains_key(key) && child.policy[key] == local[key]
            &&& !local.contains_key(key) ==> (child.policy.contains_key(key) == parent.policy.contains_key(key))
            &&& !local.contains_key(key) && parent.policy.contains_key(key) ==> child.policy[key] == parent.policy[key]
        }),
{
}

/// A fork appends the child to its parent's children and leaves the parent's other
/// fields, but its update time, as they were.
pub proof fn law_fork_records_child(parent: SessionView, child: u128, now: UtcTimestamp)
    ensures
        ({
            let p = with_child(parent, child, now);
            &&& p.child_session_ids.len() == parent.child_session_ids.len() + 1
            &&& p.child_session_ids.last() == child
            &&& p.child_session_ids.drop_last() == parent.child_session_ids
            &&& p.session_id == parent.session_id
            &&& p.lifecycle_state == parent.lifecycle_state
            &&& p.context == parent.context
            &&& p.policy == parent.policy
            &&& p.updated_at == now
        }),
{
    assert(with_child(parent, child, now).child_session_ids.drop_last() =~= parent.child_session_ids);
}

} // verus!
