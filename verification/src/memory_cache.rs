//! The document cache in front of a memory store: what a load finds after a save, how
//! versions count saves, and when the store has to be read.

use vstd::prelude::*;
use std::collections::HashMap;
use crate::memory::CacheStats;
use crate::session::UtcTimestamp;

verus! {

broadcast use vstd::std_specs::hash::group_hash_axioms;

/// A cached document and how many saves it has seen since it was first cached.
#[derive(Debug, Clone)]
pub struct CachedDocument<D> {
    pub document: D,
    pub cached_at: UtcTimestamp,
    pub version: u64,
}

/// The version after one more save; versions wrap around at the top of `u64`.
pub open spec fn next_version(v: u64) -> u64 {
    if v < u64::MAX {
        (v + 1) as u64
    } else {
        0
    }
}

/// Documents cached per thread, when caching is enabled.
pub struct MemoryCache<D> {
    entries: HashMap<u128, CachedDocument<D>>,
    enabled: bool,
}

impl<D: Clone> MemoryCache<D> {
    /// The cached entry of each thread.
    pub closed spec fn cached(&self) -> Map<u128, CachedDocument<D>> {
        self.entries@
    }

    pub closed spec fn is_enabled(&self) -> bool {
        self.enabled
    }

    /// A disabled cache holds nothing.
    pub closed spec fn wf(&self) -> bool {
        !self.enabled ==> self.entries@.dom().is_empty()
    }

    pub fn new(enabled: bool) -> (r: Self)
        ensures
            r.wf(),
            r.is_enabled() == enabled,
            r.cached() == Map::<u128, CachedDocument<D>>::empty(),
    {
        let r = MemoryCache { entries: HashMap::new(), enabled };
        assert(r.entries@ =~= Map::<u128, CachedDocument<D>>::empty());
        r
    }

    /// The cached document of a thread, if caching is on and it is cached: a load that
    /// finds one returns it without reading the store.
    pub fn lookup(&self, thread_id: u128) -> (r: Option<D>)
        requires
            self.wf(),
        ensures
            match self.cached().get(thread_id) {
                Some(c) => r matches Some(d) && cloned(c.document, d),
                None => r is None,
            },
    {
        if !self.enabled {
            return None;
        }
        match self.entries.get(&thread_id) {
            Some(c) => Some(c.document.clone()),
            None => None,
        }
    }

    /// Records a document the store has just saved: it is cached with one more save
    /// counted than the entry it replaces (the first one counts zero).
    pub fn record_save(&mut self, thread_id: u128, document: &D, now: UtcTimestamp)
        requires
            old(self).wf(),
        ensures
            final(self).wf(),
            final(self).is_enabled() == old(self).is_enabled(),
            !old(self).is_enabled() ==> final(self).cached() == old(self).cached(),
            old(self).is_enabled() ==> final(self).cached().dom() == old(self).cached().dom().insert(thread_id),
            old(self).is_enabled() ==> forall|t: u128| t != thread_id ==> #[trigger] final(self).cached().get(t)
                == old(self).cached().get(t),
            old(self).is_enabled() ==> ({
                let c = final(self).cached()[thread_id];
                &&& cloned(*document, c.document)
                &&& c.cached_at == now
                &&& c.version == match old(self).cached().get(thread_id) {
                    Some(prev) => next_version(prev.version),
                    None => 0,
                }
            }),
    {
        if self.enabled {
            let version = match self.entries.get(&thread_id) {
                Some(c) => c.version.wrapping_add(1),
                None => 0,
            };
            let entry = CachedDocument { document: document.clone(), cached_at: now, version };
            self.entries.insert(thread_id, entry);
            assert(self.entries@.dom() =~= old(self).entries@.dom().insert(thread_id));
        }
    }

    /// Records a document the store has just loaded for a cache miss: cached with no
    /// saves counted.
    pub fn record_load(&mut self, thread_id: u128, document: &D, now: UtcTimestamp)
        requires
            old(self).wf(),
        ensures
            final(self).wf(),
            final(self).is_enabled() == old(self).is_enabled(),
            !old(self).is_enabled() ==> final(self).cached() == old(self).cached(),
            old(self).is_enabled() ==> final(self).cached().dom() == old(self).cached().dom().insert(thread_id),
            old(self).is_enabled() ==> forall|t: u128| t != thread_id ==> #[trigger] final(self).cached().get(t)
                == old(self).cached().get(t),
            old(self).is_enabled() ==> ({
                let c = final(self).cached()[thread_id];
                &&& cloned(*document, c.document)
                &&& c.cached_at == now
                &&& c.version == 0
            }),
    {
        if self.enabled {
            let entry = CachedDocument { document: document.clone(), cached_at: now, version: 0 };
            self.entries.insert(thread_id, entry);
            assert(self.entries@.dom() =~= old(self).entries@.dom().insert(thread_id));
        }
    }

    /// Drops the cached document of a thread.
    pub fn invalidate(&mut self, thread_id: u128)
        requires
            old(self).wf(),
        ensures
            final(self).wf(),
            final(self).is_enabled() == old(self).is_enabled(),
            final(self).cached() == old(self).cached().remove(thread_id),
    {
        if self.enabled {
            self.entries.remove(&thread_id);
        } else {
            assert(self.entries@ =~= self.entries@.remove(thread_id));
        }
    }

    /// Drops every cached document.
    pub fn clear(&mut self)
        requires
            old(self).wf(),
        ensures
            final(self).wf(),
            final(self).is_enabled() == old(self).is_enabled(),
            final(self).cached() == Map::<u128, CachedDocument<D>>::empty(),
    {
        if self.enabled {
            self.entries.clear();
        }
        assert(self.entries@ =~= Map::<u128, CachedDocument<D>>::empty());
    }

    /// How many documents are cached, and whether caching is on.
    pub fn stats(&self) -> (r: CacheStats)
        ensures
            r.size == self.cached().len(),
            r.enabled == self.is_enabled(),
    {
        CacheStats { size: self.entries.len(), enabled: self.enabled }
    }
}

/// What a load finds after a save: the saved document, with the version counting the
/// save.
pub proof fn law_load_after_save_finds_saved<D: Clone>(
    before: Map<u128, CachedDocument<D>>,
    after: Map<u128, CachedDocument<D>>,
    thread_id: u128,
    saved: D,
    now: UtcTimestamp,
)
    requires
        after.dom() == before.dom().insert(thread_id),
        cloned(saved, after[thread_id].document),
        after[thread_id].version == match before.get(thread_id) {
            Some(prev) => next_version(prev.version),
            None => 0,
        },
    ensures
        after.get(thread_id) matches Some(c) && cloned(saved, c.document),
        before.get(thread_id) matches Some(prev) ==> after[thread_id].version == next_version(prev.version),
{
}

} // verus!
