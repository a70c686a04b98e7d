//! A map from byte keys to byte values kept in the store under an index name.
//!
//! The entry with the empty key holds the map's generation, eight bytes; the
//! value of a key lives under the generation followed by the key. Clearing
//! the map moves on to the next generation, so it costs one write whatever
//! the map held.

use crate::storage::{
    copy_bytes, lemma_extends_refl, lookup, opt_view, put_write, remove_write, ChangeView,
    FatalStorageError, Fork, Readable, StoreMap,
};
use vstd::bytes::*;
use vstd::prelude::*;
use vstd::string::*;

verus! {

/// The generation of the map `name`, or `None` if the entry that holds it
/// is malformed. A map that was never cleared is in generation 0.
pub open spec fn map_generation(m: StoreMap, name: Seq<u8>) -> Option<u64> {
    match lookup(m, (name, Seq::<u8>::empty())) {
        None => Some(0u64),
        Some(b) => if b.len() == 8 {
            Some(spec_u64_from_le_bytes(b))
        } else {
            None
        },
    }
}

/// The store key of `key` in generation `generation`.
pub open spec fn entry_key(generation: u64, key: Seq<u8>) -> Seq<u8> {
    spec_u64_to_le_bytes(generation) + key
}

/// The value of `key` in the map `name` as it stands.
pub open spec fn map_get(m: StoreMap, name: Seq<u8>, key: Seq<u8>) -> Result<
    Option<Seq<u8>>,
    FatalStorageError,
> {
    match map_generation(m, name) {
        None => Err(FatalStorageError::Corrupted),
        Some(g) => Ok(lookup(m, (name, entry_key(g, key)))),
    }
}

/// The write of a put on a map in the given state; none where it fails.
pub open spec fn map_put_log(m: StoreMap, name: Seq<u8>, key: Seq<u8>, value: Seq<u8>) -> Seq<
    ChangeView,
> {
    match map_generation(m, name) {
        None => Seq::empty(),
        Some(g) => put_write(name, entry_key(g, key), value),
    }
}

/// The write of a remove on a map in the given state; none where it fails.
pub open spec fn map_remove_log(m: StoreMap, name: Seq<u8>, key: Seq<u8>) -> Seq<ChangeView> {
    match map_generation(m, name) {
        None => Seq::empty(),
        Some(g) => remove_write(name, entry_key(g, key)),
    }
}

/// The write of a clear on a map in the given state: the next generation;
/// none where it fails.
pub open spec fn map_clear_log(m: StoreMap, name: Seq<u8>) -> Seq<ChangeView> {
    match map_generation(m, name) {
        None => Seq::empty(),
        Some(g) => if g == u64::MAX {
            Seq::empty()
        } else {
            put_write(name, Seq::<u8>::empty(), spec_u64_to_le_bytes((g + 1) as u64))
        },
    }
}

/// No entry of the map `name` belongs to a generation after `generation`.
pub open spec fn fresh_above(m: StoreMap, name: Seq<u8>, generation: u64) -> bool {
    forall|k: Seq<u8>| #[trigger]
        m.contains_key((name, k)) && k.len() >= 8 ==> spec_u64_from_le_bytes(k.subrange(0, 8))
            <= generation
}

/// A store key gives its generation and its key back.
pub proof fn lemma_entry_key(generation: u64, key: Seq<u8>)
    ensures
        entry_key(generation, key).len() == 8 + key.len(),
        entry_key(generation, key).subrange(0, 8) == spec_u64_to_le_bytes(generation),
        spec_u64_from_le_bytes(entry_key(generation, key).subrange(0, 8)) == generation,
        entry_key(generation, key).subrange(8, 8 + key.len() as int) == key,
{
    lemma_auto_spec_u64_to_from_le_bytes();
    assert(entry_key(generation, key).subrange(0, 8) =~= spec_u64_to_le_bytes(generation));
    assert(entry_key(generation, key).subrange(8, 8 + key.len() as int) =~= key);
}

/// After a put the key has the value, every other key is as it was, and no
/// entry of a later generation has appeared.
pub proof fn law_map_put(m: StoreMap, name: Seq<u8>, generation: u64, key: Seq<u8>, value: Seq<u8>)
    requires
        map_generation(m, name) == Some(generation),
    ensures
        ({
            let after = m.insert((name, entry_key(generation, key)), value);
            &&& map_get(after, name, key) == Ok::<Option<Seq<u8>>, FatalStorageError>(Some(value))
            &&& forall|other: Seq<u8>|
                other != key ==> #[trigger] map_get(after, name, other) == map_get(m, name, other)
            &&& fresh_above(m, name, generation) ==> fresh_above(after, name, generation)
        }),
{
    let after = m.insert((name, entry_key(generation, key)), value);
    lemma_entry_key(generation, key);
    assert forall|other: Seq<u8>| other != key implies #[trigger] map_get(after, name, other)
        == map_get(m, name, other) by {
        lemma_entry_key(generation, other);
    }
}

/// After a remove the key has no value and every other key is as it was.
pub proof fn law_map_remove(m: StoreMap, name: Seq<u8>, generation: u64, key: Seq<u8>)
    requires
        map_generation(m, name) == Some(generation),
    ensures
        ({
            let after = m.remove((name, entry_key(generation, key)));
            &&& map_get(after, name, key) == Ok::<Option<Seq<u8>>, FatalStorageError>(None)
            &&& forall|other: Seq<u8>|
                other != key ==> #[trigger] map_get(after, name, other) == map_get(m, name, other)
            &&& fresh_above(m, name, generation) ==> fresh_above(after, name, generation)
        }),
{
    let after = m.remove((name, entry_key(generation, key)));
    lemma_entry_key(generation, key);
    assert forall|other: Seq<u8>| other != key implies #[trigger] map_get(after, name, other)
        == map_get(m, name, other) by {
        lemma_entry_key(generation, other);
    }
}

/// After a clear no key has a value.
pub proof fn law_map_clear(m: StoreMap, name: Seq<u8>, generation: u64)
    requires
        map_generation(m, name) == Some(generation),
        generation < u64::MAX,
        fresh_above(m, name, generation),
    ensures
        ({
            let after = m.insert(
                (name, Seq::<u8>::empty()),
                spec_u64_to_le_bytes((generation + 1) as u64),
            );
            &&& forall|key: Seq<u8>| #[trigger]
                map_get(after, name, key) == Ok::<Option<Seq<u8>>, FatalStorageError>(None)
            &&& fresh_above(after, name, (generation + 1) as u64)
        }),
{
    let next = (generation + 1) as u64;
    let after = m.insert((name, Seq::<u8>::empty()), spec_u64_to_le_bytes(next));
    lemma_auto_spec_u64_to_from_le_bytes();
    assert forall|key: Seq<u8>| #[trigger]
        map_get(after, name, key) == Ok::<Option<Seq<u8>>, FatalStorageError>(None) by {
        lemma_entry_key(next, key);
        if m.contains_key((name, entry_key(next, key))) {
            assert(false);
        }
    }
}

fn read_generation<R: Readable>(store: &R, name: &[u8]) -> (r: Result<u64, FatalStorageError>)
    ensures
        match map_generation(store.contents(), name@) {
            Some(g) => r == Ok::<u64, FatalStorageError>(g),
            None => r == Err::<u64, FatalStorageError>(FatalStorageError::Corrupted),
        },
{
    let empty: Vec<u8> = Vec::new();
    assert(empty@ =~= Seq::<u8>::empty());
    match store.read(name, empty.as_slice()) {
        None => Ok(0),
        Some(b) => {
            if b.len() == 8 {
                Ok(u64_from_le_bytes(b.as_slice()))
            } else {
                Err(FatalStorageError::Corrupted)
            }
        },
    }
}

fn encode_key(generation: u64, key: &[u8]) -> (out: Vec<u8>)
    ensures
        out@ == entry_key(generation, key@),
{
    let mut out = u64_to_le_bytes(generation);
    let mut tail = copy_bytes(key);
    out.append(&mut tail);
    out
}

/// A handle on the map that is stored under a name.
pub struct MapIndex {
    name: Vec<u8>,
}

impl MapIndex {
    /// The name under which the map is stored.
    pub closed spec fn name(&self) -> Seq<u8> {
        self.name@
    }

    /// The map stored under `name`.
    pub fn new(name: &str) -> (index: MapIndex)
        ensures
            index.name() == name.spec_bytes(),
    {
        MapIndex { name: copy_bytes(name.as_bytes()) }
    }

    /// The value of `key`, if it has one. Fails exactly when the stored
    /// generation is malformed.
    pub fn get<R: Readable>(&self, store: &R, key: &[u8]) -> (r: Result<
        Option<Vec<u8>>,
        FatalStorageError,
    >)
        ensures
            match map_get(store.contents(), self.name(), key@) {
                Ok(v) => r is Ok && opt_view(r->Ok_0) == v,
                Err(e) => r is Err && r->Err_0 == e,
            },
    {
        let g = match read_generation(store, self.name.as_slice()) {
            Ok(g) => g,
            Err(e) => {
                return Err(e);
            },
        };
        let k = encode_key(g, key);
        Ok(store.read(self.name.as_slice(), k.as_slice()))
    }

    /// Whether `key` has a value.
    pub fn contains<R: Readable>(&self, store: &R, key: &[u8]) -> (r: Result<
        bool,
        FatalStorageError,
    >)
        ensures
            match map_get(store.contents(), self.name(), key@) {
                Ok(v) => r == Ok::<bool, FatalStorageError>(v.is_some()),
                Err(e) => r == Err::<bool, FatalStorageError>(e),
            },
    {
        match self.get(store, key) {
            Ok(v) => Ok(v.is_some()),
            Err(e) => Err(e),
        }
    }

    /// Gives `key` the value `value`. Fails, and leaves the fork as it was,
    /// exactly when the stored generation is malformed.
    pub fn put(&self, fork: &mut Fork, key: &[u8], value: Vec<u8>) -> (r: Result<
        (),
        FatalStorageError,
    >)
        ensures
            final(fork).extends(*old(fork)),
            final(fork).adds(*old(fork), map_put_log(old(fork)@, self.name(), key@, value@)),
            match map_generation(old(fork)@, self.name()) {
                None => r == Err::<(), FatalStorageError>(FatalStorageError::Corrupted)
                    && final(fork)@ == old(fork)@,
                Some(g) => r == Ok::<(), FatalStorageError>(()) && final(fork)@ == old(fork)@.insert((self.name(), entry_key(g, key@)), value@),
            },
    {
        proof {
            lemma_extends_refl(*fork);
        }
        let g = match read_generation(fork, self.name.as_slice()) {
            Ok(g) => g,
            Err(e) => {
                return Err(e);
            },
        };
        let k = encode_key(g, key);
        fork.put(self.name.as_slice(), k.as_slice(), value);
        Ok(())
    }

    /// Takes the value of `key` away. Fails, and leaves the fork as it was,
    /// exactly when the stored generation is malformed.
    pub fn remove(&self, fork: &mut Fork, key: &[u8]) -> (r: Result<(), FatalStorageError>)
        ensures
            final(fork).extends(*old(fork)),
            final(fork).adds(*old(fork), map_remove_log(old(fork)@, self.name(), key@)),
            match map_generation(old(fork)@, self.name()) {
                None => r == Err::<(), FatalStorageError>(FatalStorageError::Corrupted)
                    && final(fork)@ == old(fork)@,
                Some(g) => r == Ok::<(), FatalStorageError>(()) && final(fork)@ == old(fork)@.remove((self.name(), entry_key(g, key@))),
            },
    {
        proof {
            lemma_extends_refl(*fork);
        }
        let g = match read_generation(fork, self.name.as_slice()) {
            Ok(g) => g,
            Err(e) => {
                return Err(e);
            },
        };
        let k = encode_key(g, key);
        fork.remove(self.name.as_slice(), k.as_slice());
        Ok(())
    }

    /// Empties the map with one write: the map moves on to its next
    /// generation. Fails, and leaves the fork as it was, exactly when the
    /// stored generation is malformed or is the last one.
    pub fn clear(&self, fork: &mut Fork) -> (r: Result<(), FatalStorageError>)
        ensures
            final(fork).extends(*old(fork)),
            final(fork).adds(*old(fork), map_clear_log(old(fork)@, self.name())),
            match map_generation(old(fork)@, self.name()) {
                None => r == Err::<(), FatalStorageError>(FatalStorageError::Corrupted)
                    && final(fork)@ == old(fork)@,
                Some(g) => if g == u64::MAX {
                    r == Err::<(), FatalStorageError>(FatalStorageError::Exhausted)
                        && final(fork)@ == old(fork)@
                } else {
                    r == Ok::<(), FatalStorageError>(()) && final(fork)@ == old(fork)@.insert(
                        (self.name(), Seq::<u8>::empty()),
                        spec_u64_to_le_bytes((g + 1) as u64),
                    )
                },
            },
    {
        proof {
            lemma_extends_refl(*fork);
        }
        let g = match read_generation(fork, self.name.as_slice()) {
            Ok(g) => g,
            Err(e) => {
                return Err(e);
            },
        };
        if g == u64::MAX {
            return Err(FatalStorageError::Exhausted);
        }
        let empty: Vec<u8> = Vec::new();
        assert(empty@ =~= Seq::<u8>::empty());
        fork.put(self.name.as_slice(), empty.as_slice(), u64_to_le_bytes(g + 1));
        Ok(())
    }
}

} // verus!
