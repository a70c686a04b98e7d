//! A single `u64` value kept in the store under an index name.

use crate::storage::{
    copy_bytes, lookup, remove_write, ChangeView, FatalStorageError, Fork, Readable, StoreMap,
};
use vstd::bytes::*;
use vstd::prelude::*;
use vstd::string::*;

verus! {

/// The value of the entry `name`: `Ok(None)` if nothing is stored, an error
/// if what is stored is not eight bytes.
pub open spec fn entry_value(m: StoreMap, name: Seq<u8>) -> Result<Option<u64>, FatalStorageError> {
    match lookup(m, (name, Seq::<u8>::empty())) {
        None => Ok(None),
        Some(b) => if b.len() == 8 {
            Ok(Some(spec_u64_from_le_bytes(b)))
        } else {
            Err(FatalStorageError::Corrupted)
        },
    }
}

/// Reading an entry after it was set gives the value that was set.
pub proof fn law_entry_set_get(m: StoreMap, name: Seq<u8>, value: u64)
    ensures
        entry_value(
            m.insert((name, Seq::<u8>::empty()), spec_u64_to_le_bytes(value)),
            name,
        ) == Ok::<Option<u64>, FatalStorageError>(Some(value)),
{
    lemma_auto_spec_u64_to_from_le_bytes();
}

/// A handle on the entry that is stored under a name.
pub struct Entry {
    name: Vec<u8>,
}

impl Entry {
    /// The name under which the entry is stored.
    pub closed spec fn name(&self) -> Seq<u8> {
        self.name@
    }

    /// The entry stored under `name`.
    pub fn new(name: &str) -> (entry: Entry)
        ensures
            entry.name() == name.spec_bytes(),
    {
        Entry { name: copy_bytes(name.as_bytes()) }
    }

    /// The stored value, if any.
    pub fn get<R: Readable>(&self, store: &R) -> (r: Result<Option<u64>, FatalStorageError>)
        ensures
            r == entry_value(store.contents(), self.name()),
    {
        let empty: Vec<u8> = Vec::new();
        assert(empty@ =~= Seq::<u8>::empty());
        match store.read(self.name.as_slice(), empty.as_slice()) {
            None => Ok(None),
            Some(b) => {
                if b.len() == 8 {
                    Ok(Some(u64_from_le_bytes(b.as_slice())))
                } else {
                    Err(FatalStorageError::Corrupted)
                }
            },
        }
    }

    /// Whether a value is stored.
    pub fn is_set<R: Readable>(&self, store: &R) -> (r: bool)
        ensures
            r == store.contents().contains_key((self.name(), Seq::<u8>::empty())),
    {
        let empty: Vec<u8> = Vec::new();
        assert(empty@ =~= Seq::<u8>::empty());
        store.read(self.name.as_slice(), empty.as_slice()).is_some()
    }

    /// Stores `value`.
    pub fn set(&self, fork: &mut Fork, value: u64)
        ensures
            final(fork).extends(*old(fork)),
            final(fork).adds(
                *old(fork),
                seq![
                    (ChangeView {
                        name: self.name(),
                        key: Seq::<u8>::empty(),
                        value: Some(spec_u64_to_le_bytes(value)),
                    }),
                ],
            ),
            final(fork)@ == old(fork)@.insert(
                (self.name(), Seq::<u8>::empty()),
                spec_u64_to_le_bytes(value),
            ),
    {
        let empty: Vec<u8> = Vec::new();
        assert(empty@ =~= Seq::<u8>::empty());
        fork.put(self.name.as_slice(), empty.as_slice(), u64_to_le_bytes(value));
    }

    /// Removes the stored value, if any.
    pub fn remove(&self, fork: &mut Fork)
        ensures
            final(fork).extends(*old(fork)),
            final(fork).adds(*old(fork), remove_write(self.name(), Seq::<u8>::empty())),
            final(fork)@ == old(fork)@.remove((self.name(), Seq::<u8>::empty())),
    {
        let empty: Vec<u8> = Vec::new();
        assert(empty@ =~= Seq::<u8>::empty());
        fork.remove(self.name.as_slice(), empty.as_slice());
    }
}

} // verus!
