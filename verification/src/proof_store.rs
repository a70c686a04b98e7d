//! Keeping a proof map in the store.
//!
//! Under the index name, the entry with the empty key holds the number of
//! entries, eight bytes; the entry under the eight bytes of `i` holds the
//! `i`-th key, eight bytes, followed by its value. Keys ascend with `i`.

use crate::proof_map::{ascending, pairs, sorted, ProofEntry, ProofMapIndex};
use crate::storage::{
    copy_bytes, lemma_adds_trans, lemma_extends_refl, lemma_extends_trans, lookup, put_write,
    ChangeView, FatalStorageError, Fork, Readable, StoreMap,
};
use vstd::bytes::*;
use vstd::prelude::*;
use vstd::slice::*;
use vstd::string::*;

verus! {

/// The stored number of entries, or `None` if it is malformed. Nothing
/// stored means no entries.
pub open spec fn stored_count(m: StoreMap, name: Seq<u8>) -> Option<u64> {
    match lookup(m, (name, Seq::<u8>::empty())) {
        None => Some(0u64),
        Some(b) => if b.len() == 8 {
            Some(spec_u64_from_le_bytes(b))
        } else {
            None
        },
    }
}

/// The stored form of a key with its value.
pub open spec fn slot_bytes(pair: (u64, Seq<u8>)) -> Seq<u8> {
    spec_u64_to_le_bytes(pair.0) + pair.1
}

/// The `i`-th stored key with its value, or `None` if the slot is missing
/// or too short.
pub open spec fn stored_slot(m: StoreMap, name: Seq<u8>, i: u64) -> Option<(u64, Seq<u8>)> {
    match lookup(m, (name, spec_u64_to_le_bytes(i))) {
        None => None,
        Some(b) => if b.len() >= 8 {
            Some((spec_u64_from_le_bytes(b.subrange(0, 8)), b.subrange(8, b.len() as int)))
        } else {
            None
        },
    }
}

/// The stored keys and values in the order of their slots, or `None` if the
/// count or a slot below it is malformed or missing.
pub open spec fn stored_pairs(m: StoreMap, name: Seq<u8>) -> Option<Seq<(u64, Seq<u8>)>> {
    match stored_count(m, name) {
        None => None,
        Some(n) => if forall|i: u64| i < n ==> (#[trigger] stored_slot(m, name, i)).is_some() {
            Some(Seq::new(n as nat, |i: int| stored_slot(m, name, i as u64).unwrap()))
        } else {
            None
        },
    }
}

/// The store after the first `n` of `entries` are written to their slots.
pub open spec fn write_slots(m: StoreMap, name: Seq<u8>, entries: Seq<(u64, Seq<u8>)>, n: int)
    -> StoreMap
    decreases n,
{
    if n <= 0 {
        m
    } else {
        write_slots(m, name, entries, n - 1).insert(
            (name, spec_u64_to_le_bytes((n - 1) as u64)),
            slot_bytes(entries[n - 1]),
        )
    }
}

/// The writes that put the first `n` of `entries` in their slots.
pub open spec fn slot_writes(name: Seq<u8>, entries: Seq<(u64, Seq<u8>)>, n: int) -> Seq<
    ChangeView,
>
    decreases n,
{
    if n <= 0 {
        Seq::empty()
    } else {
        slot_writes(name, entries, n - 1) + put_write(
            name,
            spec_u64_to_le_bytes((n - 1) as u64),
            slot_bytes(entries[n - 1]),
        )
    }
}

/// The writes that save a map with `entries` under `name`: the slots in
/// order, then the count.
pub open spec fn save_log(name: Seq<u8>, entries: Seq<(u64, Seq<u8>)>) -> Seq<ChangeView> {
    slot_writes(name, entries, entries.len() as int) + put_write(
        name,
        Seq::<u8>::empty(),
        spec_u64_to_le_bytes(entries.len() as u64),
    )
}

/// The store after a map with `entries` is saved under `name`.
pub open spec fn save_map(m: StoreMap, name: Seq<u8>, entries: Seq<(u64, Seq<u8>)>) -> StoreMap {
    write_slots(m, name, entries, entries.len() as int).insert(
        (name, Seq::<u8>::empty()),
        spec_u64_to_le_bytes(entries.len() as u64),
    )
}

/// A stored slot gives its key and value back.
pub proof fn lemma_slot_bytes(pair: (u64, Seq<u8>))
    ensures
        slot_bytes(pair).len() == 8 + pair.1.len(),
        spec_u64_from_le_bytes(slot_bytes(pair).subrange(0, 8)) == pair.0,
        slot_bytes(pair).subrange(8, slot_bytes(pair).len() as int) == pair.1,
{
    lemma_auto_spec_u64_to_from_le_bytes();
    assert(slot_bytes(pair).subrange(0, 8) =~= spec_u64_to_le_bytes(pair.0));
    assert(slot_bytes(pair).subrange(8, slot_bytes(pair).len() as int) =~= pair.1);
}

/// After the first `n` entries are written, each of their slots holds its
/// entry, and the count is what it was.
pub proof fn lemma_write_slots(m: StoreMap, name: Seq<u8>, entries: Seq<(u64, Seq<u8>)>, n: int)
    requires
        0 <= n <= entries.len(),
        entries.len() <= u64::MAX,
    ensures
        forall|i: u64|
            i < n ==> #[trigger] stored_slot(write_slots(m, name, entries, n), name, i) == Some(
                entries[i as int],
            ),
        lookup(write_slots(m, name, entries, n), (name, Seq::<u8>::empty())) == lookup(
            m,
            (name, Seq::<u8>::empty()),
        ),
    decreases n,
{
    lemma_auto_spec_u64_to_from_le_bytes();
    if n > 0 {
        lemma_write_slots(m, name, entries, n - 1);
        lemma_slot_bytes(entries[n - 1]);
        let before = write_slots(m, name, entries, n - 1);
        let after = write_slots(m, name, entries, n);
        assert forall|i: u64| i < n implies #[trigger] stored_slot(after, name, i) == Some(
            entries[i as int],
        ) by {
            if i < n - 1 {
                assert(stored_slot(before, name, i) == Some(entries[i as int]));
                assert(spec_u64_from_le_bytes(spec_u64_to_le_bytes(i)) == i);
                assert(spec_u64_from_le_bytes(spec_u64_to_le_bytes((n - 1) as u64)) == (n
                    - 1) as u64);
            }
        }
    }
}

/// What was saved is what is stored.
pub proof fn law_saved_is_stored(m: StoreMap, name: Seq<u8>, entries: Seq<(u64, Seq<u8>)>)
    requires
        entries.len() <= u64::MAX,
    ensures
        stored_pairs(save_map(m, name, entries), name) == Some(entries),
{
    lemma_auto_spec_u64_to_from_le_bytes();
    lemma_write_slots(m, name, entries, entries.len() as int);
    let written = write_slots(m, name, entries, entries.len() as int);
    let saved = save_map(m, name, entries);
    assert forall|i: u64| i < entries.len() implies #[trigger] stored_slot(saved, name, i) == Some(
        entries[i as int],
    ) by {
        assert(stored_slot(written, name, i) == Some(entries[i as int]));
    }
    assert(stored_count(saved, name) == Some(entries.len() as u64));
    assert(stored_pairs(saved, name).unwrap() =~= entries);
}

/// Writes the map under `name`, in place of whatever map was saved there
/// before. Returns `false`, and writes nothing, if the map has more
/// entries than can be counted.
pub fn save(map: &ProofMapIndex, fork: &mut Fork, name: &str) -> (saved: bool)
    requires
        map.wf(),
    ensures
        final(fork).extends(*old(fork)),
        saved == (map.entries_view().len() <= u64::MAX),
        saved ==> final(fork)@ == save_map(old(fork)@, name.spec_bytes(), map.entries_view()),
        saved ==> final(fork).adds(*old(fork), save_log(name.spec_bytes(), map.entries_view())),
        !saved ==> final(fork)@ == old(fork)@,
        !saved ==> final(fork).adds(*old(fork), Seq::<ChangeView>::empty()),
{
    proof {
        lemma_extends_refl(*fork);
    }
    let entries = map.entries();
    if entries.len() as u128 > u64::MAX as u128 {
        return false;
    }
    let ghost all = pairs(entries@);
    let mut i: usize = 0;
    while i < entries.len()
        invariant
            i <= entries@.len(),
            entries@.len() <= u64::MAX,
            all == pairs(entries@),
            fork.extends(*old(fork)),
            fork.adds(*old(fork), slot_writes(name.spec_bytes(), all, i as int)),
            fork@ == write_slots(old(fork)@, name.spec_bytes(), all, i as int),
        decreases entries@.len() - i,
    {
        let key = u64_to_le_bytes(i as u64);
        let mut bytes = u64_to_le_bytes(entries[i].key);
        let mut value = copy_bytes(entries[i].value.as_slice());
        bytes.append(&mut value);
        let ghost before = *fork;
        fork.put(name.as_bytes(), key.as_slice(), bytes);
        proof {
            lemma_extends_trans(*old(fork), before, *fork);
            lemma_adds_trans(
                *old(fork),
                before,
                *fork,
                slot_writes(name.spec_bytes(), all, i as int),
                put_write(name.spec_bytes(), spec_u64_to_le_bytes(i as u64), slot_bytes(all[i as int])),
            );
        }
        i += 1;
    }
    let empty: Vec<u8> = Vec::new();
    assert(empty@ =~= Seq::<u8>::empty());
    let ghost before = *fork;
    fork.put(name.as_bytes(), empty.as_slice(), u64_to_le_bytes(entries.len() as u64));
    proof {
        lemma_extends_trans(*old(fork), before, *fork);
        lemma_adds_trans(
            *old(fork),
            before,
            *fork,
            slot_writes(name.spec_bytes(), all, all.len() as int),
            put_write(
                name.spec_bytes(),
                Seq::<u8>::empty(),
                spec_u64_to_le_bytes(all.len() as u64),
            ),
        );
    }
    true
}

/// Reads the map that is saved under `name`. Fails exactly when the count
/// or a slot below it is malformed or missing, or the stored keys do not
/// ascend.
pub fn load<R: Readable>(store: &R, name: &str) -> (r: Result<ProofMapIndex, FatalStorageError>)
    ensures
        match stored_pairs(store.contents(), name.spec_bytes()) {
            Some(p) => if ascending(p) {
                r is Ok && r->Ok_0.wf() && r->Ok_0.entries_view() == p
            } else {
                r is Err && r->Err_0 == FatalStorageError::Corrupted
            },
            None => r is Err && r->Err_0 == FatalStorageError::Corrupted,
        },
{
    let ghost m = store.contents();
    let ghost nm = name.spec_bytes();
    let empty: Vec<u8> = Vec::new();
    assert(empty@ =~= Seq::<u8>::empty());
    let n: u64 = match store.read(name.as_bytes(), empty.as_slice()) {
        None => 0,
        Some(b) => {
            if b.len() == 8 {
                u64_from_le_bytes(b.as_slice())
            } else {
                return Err(FatalStorageError::Corrupted);
            }
        },
    };
    let mut entries: Vec<ProofEntry> = Vec::new();
    let mut i: u64 = 0;
    while i < n
        invariant
            i <= n,
            m == store.contents(),
            nm == name.spec_bytes(),
            stored_count(m, nm) == Some(n),
            entries@.len() == i,
            sorted(entries@),
            forall|x: u64|
                x < i ==> #[trigger] stored_slot(m, nm, x) == Some(
                    (entries@[x as int].key, entries@[x as int].value@),
                ),
        decreases n - i,
    {
        let key = u64_to_le_bytes(i);
        let b = match store.read(name.as_bytes(), key.as_slice()) {
            Some(b) => b,
            None => {
                assert(stored_slot(m, nm, i).is_none());
                return Err(FatalStorageError::Corrupted);
            },
        };
        if b.len() < 8 {
            assert(stored_slot(m, nm, i).is_none());
            return Err(FatalStorageError::Corrupted);
        }
        let k = u64_from_le_bytes(slice_subrange(b.as_slice(), 0, 8));
        let value = copy_bytes(slice_subrange(b.as_slice(), 8, b.len()));
        if entries.len() > 0 && entries[entries.len() - 1].key >= k {
            proof {
                if stored_pairs(m, nm).is_some() {
                    let p = stored_pairs(m, nm).unwrap();
                    assert(stored_slot(m, nm, (i - 1) as u64) == Some(
                        (entries@[i - 1].key, entries@[i - 1].value@),
                    ));
                    assert(p[i - 1].0 >= p[i as int].0);
                }
            }
            return Err(FatalStorageError::Corrupted);
        }
        let ghost before = entries@;
        entries.push(ProofEntry { key: k, value });
        proof {
            assert forall|x: int, y: int| 0 <= x < y < entries@.len() implies entries@[x].key
                < entries@[y].key by {
                if y < i {
                    assert(before[x].key < before[y].key);
                } else if x < i - 1 {
                    assert(before[x].key < before[i - 1].key);
                }
            }
        }
        i += 1;
    }
    proof {
        let p = stored_pairs(m, nm).unwrap();
        assert(p =~= pairs(entries@));
        assert forall|x: int, y: int| 0 <= x < y < p.len() implies p[x].0 < p[y].0 by {
            assert(entries@[x].key < entries@[y].key);
        }
    }
    Ok(ProofMapIndex::from_sorted(entries))
}

} // verus!
