//! A set of byte strings kept in the store under an index name: the map of
//! that name in which every member has the empty value.

use crate::map_index::{
    entry_key, map_clear_log, map_generation, map_get, map_put_log, map_remove_log, MapIndex,
};
use crate::storage::{FatalStorageError, Fork, Readable, StoreMap};
use vstd::bytes::*;
use vstd::prelude::*;
use vstd::string::*;

verus! {

/// Whether `item` is a member of the set `name` as it stands.
pub open spec fn set_contains(m: StoreMap, name: Seq<u8>, item: Seq<u8>) -> Result<
    bool,
    FatalStorageError,
> {
    match map_get(m, name, item) {
        Ok(v) => Ok(v.is_some()),
        Err(e) => Err(e),
    }
}

/// A handle on the set that is stored under a name.
pub struct SetIndex {
    map: MapIndex,
}

impl SetIndex {
    /// The name under which the set is stored.
    pub closed spec fn name(&self) -> Seq<u8> {
        self.map.name()
    }

    /// The set stored under `name`.
    pub fn new(name: &str) -> (index: SetIndex)
        ensures
            index.name() == name.spec_bytes(),
    {
        SetIndex { map: MapIndex::new(name) }
    }

    /// Whether `item` is a member. Fails exactly when the stored generation
    /// is malformed.
    pub fn contains<R: Readable>(&self, store: &R, item: &[u8]) -> (r: Result<
        bool,
        FatalStorageError,
    >)
        ensures
            r == set_contains(store.contents(), self.name(), item@),
    {
        self.map.contains(store, item)
    }

    /// Makes `item` a member. Fails, and leaves the fork as it was, exactly
    /// when the stored generation is malformed.
    pub fn insert(&self, fork: &mut Fork, item: &[u8]) -> (r: Result<(), FatalStorageError>)
        ensures
            final(fork).extends(*old(fork)),
            final(fork).adds(
                *old(fork),
                map_put_log(old(fork)@, self.name(), item@, Seq::<u8>::empty()),
            ),
            match map_generation(old(fork)@, self.name()) {
                None => r == Err::<(), FatalStorageError>(FatalStorageError::Corrupted)
                    && final(fork)@ == old(fork)@,
                Some(g) => r == Ok::<(), FatalStorageError>(()) && final(fork)@ == old(fork)@.insert(
                    (self.name(), entry_key(g, item@)),
                    Seq::<u8>::empty(),
                ),
            },
    {
        let empty: Vec<u8> = Vec::new();
        assert(empty@ =~= Seq::<u8>::empty());
        self.map.put(fork, item, empty)
    }

    /// Takes `item` out of the set. Fails, and leaves the fork as it was,
    /// exactly when the stored generation is malformed.
    pub fn remove(&self, fork: &mut Fork, item: &[u8]) -> (r: Result<(), FatalStorageError>)
        ensures
            final(fork).extends(*old(fork)),
            final(fork).adds(*old(fork), map_remove_log(old(fork)@, self.name(), item@)),
            match map_generation(old(fork)@, self.name()) {
                None => r == Err::<(), FatalStorageError>(FatalStorageError::Corrupted)
                    && final(fork)@ == old(fork)@,
                Some(g) => r == Ok::<(), FatalStorageError>(()) && final(fork)@ == old(fork)@.remove(
                    (self.name(), entry_key(g, item@)),
                ),
            },
    {
        self.map.remove(fork, item)
    }

    /// Empties the set with one write. Fails, and leaves the fork as it
    /// was, exactly when the stored generation is malformed or is the last
    /// one.
    pub fn clear(&self, fork: &mut Fork) -> (r: Result<(), FatalStorageError>)
        ensures
            final(fork).extends(*old(fork)),
            final(fork).adds(*old(fork), map_clear_log(old(fork)@, self.name())),
            match map_generation(old(fork)@, self.name()) {
                None => r == Err::<(), FatalStorageError>(FatalStorageError::Corrupted)
                    && final(fork)@ == old(fork)@,
                Some(g) => if g == u64::MAX {
                    r == Err::<(), FatalStorageError>(FatalStorageError::Exhausted)
                        && final(fork)@ == old(fork)@
                } else {
                    r == Ok::<(), FatalStorageError>(()) && final(fork)@ == old(fork)@.insert(
                        (self.name(), Seq::<u8>::empty()),
                        spec_u64_to_le_bytes((g + 1) as u64),
                    )
                },
            },
    {
        self.map.clear(fork)
    }
}

} // verus!
