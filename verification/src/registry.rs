//! Selection of the memory backend among registered stores.

use vstd::prelude::*;
use crate::errors::StateError;
use crate::text::str_eq;

verus! {

/// The storage backends a deployment can select.
#[derive(Debug, Clone, Copy, PartialEq, Eq, Hash, Structural)]
pub enum StorageBackendKind {
    LocalFs,
    Sqlite,
    Postgres,
    Redis,
    S3,
}

/// The backend named by a configuration mode; unknown modes select the local file store.
pub open spec fn backend_for_mode(mode: Seq<char>) -> StorageBackendKind {
    if mode == "local_fs"@ {
        StorageBackendKind::LocalFs
    } else if mode == "sqlite"@ {
        StorageBackendKind::Sqlite
    } else if mode == "postgres"@ {
        StorageBackendKind::Postgres
    } else if mode == "redis"@ {
        StorageBackendKind::Redis
    } else if mode == "s3"@ {
        StorageBackendKind::S3
    } else {
        StorageBackendKind::LocalFs
    }
}

/// The variant's name.
pub open spec fn backend_name(k: StorageBackendKind) -> Seq<char> {
    match k {
        StorageBackendKind::LocalFs => "LocalFs"@,
        StorageBackendKind::Sqlite => "Sqlite"@,
        StorageBackendKind::Postgres => "Postgres"@,
        StorageBackendKind::Redis => "Redis"@,
        StorageBackendKind::S3 => "S3"@,
    }
}

pub open spec fn backend_slot(k: StorageBackendKind) -> int {
    match k {
        StorageBackendKind::LocalFs => 0,
        StorageBackendKind::Sqlite => 1,
        StorageBackendKind::Postgres => 2,
        StorageBackendKind::Redis => 3,
        StorageBackendKind::S3 => 4,
    }
}

/// The message of the error for a backend that is not registered.
pub open spec fn missing_backend_message(k: StorageBackendKind) -> Seq<char> {
    "memory backend "@ + backend_name(k) + " is not registered"@
}

impl StorageBackendKind {
    pub fn from_mode(mode: &str) -> (r: Self)
        ensures
            r == backend_for_mode(mode@),
    {
        if str_eq(mode, "local_fs") {
            StorageBackendKind::LocalFs
        } else if str_eq(mode, "sqlite") {
            StorageBackendKind::Sqlite
        } else if str_eq(mode, "postgres") {
            StorageBackendKind::Postgres
        } else if str_eq(mode, "redis") {
            StorageBackendKind::Redis
        } else if str_eq(mode, "s3") {
            StorageBackendKind::S3
        } else {
            StorageBackendKind::LocalFs
        }
    }

    /// The variant's name, as `{:?}` prints it.
    pub fn name(&self) -> (r: &'static str)
        ensures
            r@ == backend_name(*self),
    {
        match self {
            StorageBackendKind::LocalFs => "LocalFs",
            StorageBackendKind::Sqlite => "Sqlite",
            StorageBackendKind::Postgres => "Postgres",
            StorageBackendKind::Redis => "Redis",
            StorageBackendKind::S3 => "S3",
        }
    }

    fn slot(&self) -> (r: usize)
        ensures
            r == backend_slot(*self),
    {
        match self {
            StorageBackendKind::LocalFs => 0,
            StorageBackendKind::Sqlite => 1,
            StorageBackendKind::Postgres => 2,
            StorageBackendKind::Redis => 3,
            StorageBackendKind::S3 => 4,
        }
    }
}

/// The memory stores registered per backend, and the default one.
pub struct MemoryBackends<S> {
    default_kind: StorageBackendKind,
    memory: S,
    slots: Vec<Option<S>>,
}

impl<S: Clone> MemoryBackends<S> {
    /// The store registered for a backend, if any.
    pub closed spec fn registered(&self, k: StorageBackendKind) -> Option<S> {
        self.slots@[backend_slot(k)]
    }

    pub closed spec fn default_backend(&self) -> StorageBackendKind {
        self.default_kind
    }

    /// The store used by default.
    pub closed spec fn default_store(&self) -> S {
        self.memory
    }

    /// The default backend is registered and the default store is (a clone of) its store.
    pub closed spec fn wf(&self) -> bool {
        &&& self.slots@.len() == 5
        &&& self.slots@[backend_slot(self.default_kind)] matches Some(s) && cloned(s, self.memory)
    }

    /// Registers `memory` as the store of `default_kind`, which becomes the default.
    pub fn new(default_kind: StorageBackendKind, memory: S) -> (r: Self)
        ensures
            r.wf(),
            r.default_backend() == default_kind,
            r.registered(default_kind) == Some(memory),
            cloned(memory, r.default_store()),
            forall|k: StorageBackendKind| k != default_kind ==> r.registered(k) is None,
    {
        let mut slots: Vec<Option<S>> = vec![None, None, None, None, None];
        let active = memory.clone();
        slots.set(default_kind.slot(), Some(memory));
        MemoryBackends { default_kind, memory: active, slots }
    }

    /// Registers (or replaces) the store of a backend; registering the default backend
    /// also replaces the default store.
    pub fn register_memory_backend(&mut self, kind: StorageBackendKind, store: S)
        requires
            old(self).wf(),
        ensures
            final(self).wf(),
            final(self).registered(kind) == Some(store),
            forall|k: StorageBackendKind| k != kind ==> final(self).registered(k) == old(self).registered(k),
            final(self).default_backend() == old(self).default_backend(),
            kind == old(self).default_backend() ==> cloned(store, final(self).default_store()),
            kind != old(self).default_backend() ==> final(self).default_store() == old(self).default_store(),
    {
        if kind == self.default_kind {
            self.memory = store.clone();
        }
        self.slots.set(kind.slot(), Some(store));
        proof {
            assert forall|k: StorageBackendKind| k != kind implies backend_slot(k) != backend_slot(kind) by {}
        }
    }

    /// The store of a backend; an error when none is registered.
    pub fn resolve_memory_store(&self, kind: StorageBackendKind) -> (r: Result<S, StateError>)
        requires
            self.wf(),
        ensures
            match self.registered(kind) {
                Some(s) => r matches Ok(c) && cloned(s, c),
                None => r matches Err(StateError::Backend(m)) && m@ == missing_backend_message(kind),
            },
    {
        match &self.slots[kind.slot()] {
            Some(s) => Ok(s.clone()),
            None => {
                let mut m = "memory backend ".to_string();
                m.append(kind.name());
                m.append(" is not registered");
                Err(StateError::Backend(m))
            },
        }
    }

    /// The store of the default backend, which is always registered.
    pub fn resolve_default_memory_store(&self) -> (r: Result<S, StateError>)
        requires
            self.wf(),
        ensures
            self.registered(self.default_backend()) matches Some(s) && r matches Ok(c) && cloned(s, c),
    {
        self.resolve_memory_store(self.default_kind)
    }

    /// Makes a registered backend the default; an error, and no change, when it is not registered.
    pub fn set_default_memory_backend(&mut self, kind: StorageBackendKind) -> (r: Result<(), StateError>)
        requires
            old(self).wf(),
        ensures
            final(self).wf(),
            forall|k: StorageBackendKind| final(self).registered(k) == old(self).registered(k),
            match old(self).registered(kind) {
                Some(s) => r is Ok && final(self).default_backend() == kind && cloned(s, final(self).default_store()),
                None => r matches Err(StateError::Backend(m)) && m@ == missing_backend_message(kind)
                    && final(self).default_backend() == old(self).default_backend()
                    && final(self).default_store() == old(self).default_store(),
            },
    {
        match self.resolve_memory_store(kind) {
            Ok(store) => {
                self.default_kind = kind;
                self.memory = store;
                Ok(())
            },
            Err(e) => Err(e),
        }
    }

    /// The store for `kind`, or for the default backend when `kind` is `None`.
    pub fn select_memory_store(&self, kind: Option<StorageBackendKind>) -> (r: Result<S, StateError>)
        requires
            self.wf(),
        ensures
            match kind {
                Some(k) => match self.registered(k) {
                    Some(s) => r matches Ok(c) && cloned(s, c),
                    None => r matches Err(StateError::Backend(m)) && m@ == missing_backend_message(k),
                },
                None => self.registered(self.default_backend()) matches Some(s) && r matches Ok(c) && cloned(s, c),
            },
    {
        match kind {
            Some(k) => self.resolve_memory_store(k),
            None => self.resolve_default_memory_store(),
        }
    }

    /// The current default store.
    pub fn default_memory(&self) -> (r: &S)
        ensures
            *r == self.default_store(),
    {
        &self.memory
    }

    /// The current default backend.
    pub fn default_memory_backend(&self) -> (r: StorageBackendKind)
        ensures
            r == self.default_backend(),
    {
        self.default_kind
    }
}

} // verus!
