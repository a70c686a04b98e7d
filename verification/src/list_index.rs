//! A list of `u64` values kept in the store under an index name.
//!
//! The entry with the empty key holds the list's generation and length, eight
//! bytes each; the item at position `i` lives under the generation followed by
//! `i`. Clearing the list moves on to the next generation, so it costs one
//! write whatever the list held. Entries of earlier generations, and items at
//! or beyond the length, are never read.

use crate::storage::{
    copy_bytes, lemma_adds_trans, lemma_extends_refl, lemma_extends_trans, lookup, put_write,
    remove_write, ChangeView, FatalStorageError, Fork, Readable, StoreMap,
};
use vstd::bytes::*;
use vstd::prelude::*;
use vstd::slice::*;
use vstd::string::*;

verus! {

/// Two numbers as sixteen bytes, little-endian, the first one first.
pub open spec fn pair_bytes(a: u64, b: u64) -> Seq<u8> {
    spec_u64_to_le_bytes(a) + spec_u64_to_le_bytes(b)
}

/// The key of the entry that holds generation and length.
pub open spec fn meta_key() -> Seq<u8> {
    Seq::empty()
}

/// Generation and length of the list `name`, or `None` if the entry that
/// holds them is malformed. A list that was never written is empty.
pub open spec fn list_state(m: StoreMap, name: Seq<u8>) -> Option<(u64, u64)> {
    match lookup(m, (name, meta_key())) {
        None => Some((0u64, 0u64)),
        Some(b) => if b.len() == 16 {
            Some(
                (
                    spec_u64_from_le_bytes(b.subrange(0, 8)),
                    spec_u64_from_le_bytes(b.subrange(8, 16)),
                ),
            )
        } else {
            None
        },
    }
}

/// The item at position `i` of generation `generation`, or `None` if the
/// entry is missing or malformed.
pub open spec fn list_item(m: StoreMap, name: Seq<u8>, generation: u64, i: u64) -> Option<u64> {
    match lookup(m, (name, pair_bytes(generation, i))) {
        None => None,
        Some(b) => if b.len() == 8 {
            Some(spec_u64_from_le_bytes(b))
        } else {
            None
        },
    }
}

/// The length of the list `name`, if its state is well formed.
pub open spec fn list_len(m: StoreMap, name: Seq<u8>) -> Option<u64> {
    match list_state(m, name) {
        Some(s) => Some(s.1),
        None => None,
    }
}

/// The item at position `i` of the list `name` as it stands.
pub open spec fn list_get(m: StoreMap, name: Seq<u8>, i: u64) -> Option<u64> {
    match list_state(m, name) {
        Some(s) => if i < s.1 {
            list_item(m, name, s.0, i)
        } else {
            None
        },
        None => None,
    }
}

/// The store after `value` is appended to a list of length `len`.
pub open spec fn push_map(m: StoreMap, name: Seq<u8>, generation: u64, len: u64, value: u64)
    -> StoreMap {
    m.insert((name, pair_bytes(generation, len)), spec_u64_to_le_bytes(value)).insert(
        (name, meta_key()),
        pair_bytes(generation, (len + 1) as u64),
    )
}

/// The writes that append `value` to a list of length `len`: the item, then
/// the new length.
pub open spec fn push_writes(name: Seq<u8>, generation: u64, len: u64, value: u64) -> Seq<
    ChangeView,
> {
    seq![
        (ChangeView {
            name,
            key: pair_bytes(generation, len),
            value: Some(spec_u64_to_le_bytes(value)),
        }),
        (ChangeView {
            name,
            key: meta_key(),
            value: Some(pair_bytes(generation, (len + 1) as u64)),
        }),
    ]
}

/// The writes of a push on a list in the given state: none where the push
/// fails.
pub open spec fn push_log(m: StoreMap, name: Seq<u8>, value: u64) -> Seq<ChangeView> {
    match list_state(m, name) {
        None => Seq::empty(),
        Some(s) => if s.1 == u64::MAX {
            Seq::empty()
        } else {
            push_writes(name, s.0, s.1, value)
        },
    }
}

/// The writes of a pop on a list in the given state: the removal of the
/// last item, then the new length; none where the pop fails or the list is
/// empty.
pub open spec fn pop_log(m: StoreMap, name: Seq<u8>) -> Seq<ChangeView> {
    match list_state(m, name) {
        None => Seq::empty(),
        Some(s) => if s.1 == 0 {
            Seq::empty()
        } else {
            match list_item(m, name, s.0, (s.1 - 1) as u64) {
                None => Seq::empty(),
                Some(_) => remove_write(name, pair_bytes(s.0, (s.1 - 1) as u64)) + put_write(
                    name,
                    meta_key(),
                    pair_bytes(s.0, (s.1 - 1) as u64),
                ),
            }
        },
    }
}

/// The writes of setting position `i` of a list in the given state: the
/// item, within the length; none otherwise.
pub open spec fn set_log(m: StoreMap, name: Seq<u8>, i: u64, value: u64) -> Seq<ChangeView> {
    match list_state(m, name) {
        None => Seq::empty(),
        Some(s) => if i < s.1 {
            put_write(name, pair_bytes(s.0, i), spec_u64_to_le_bytes(value))
        } else {
            Seq::empty()
        },
    }
}

/// The writes of truncating a list in the given state to `len`: the new
/// length, if it is shorter; none otherwise.
pub open spec fn truncate_log(m: StoreMap, name: Seq<u8>, len: u64) -> Seq<ChangeView> {
    match list_state(m, name) {
        None => Seq::empty(),
        Some(s) => if len < s.1 {
            put_write(name, meta_key(), pair_bytes(s.0, len))
        } else {
            Seq::empty()
        },
    }
}

/// The writes of clearing a list in the given state: the next generation
/// with length zero; none where the clear fails.
pub open spec fn clear_log(m: StoreMap, name: Seq<u8>) -> Seq<ChangeView> {
    match list_state(m, name) {
        None => Seq::empty(),
        Some(s) => if s.0 == u64::MAX {
            Seq::empty()
        } else {
            put_write(name, meta_key(), pair_bytes((s.0 + 1) as u64, 0))
        },
    }
}

/// The store after the last item of a list of length `len > 0` is removed.
pub open spec fn pop_map(m: StoreMap, name: Seq<u8>, generation: u64, len: u64) -> StoreMap {
    m.remove((name, pair_bytes(generation, (len - 1) as u64))).insert(
        (name, meta_key()),
        pair_bytes(generation, (len - 1) as u64),
    )
}

/// The store after the list's length is set to `len`.
pub open spec fn resize_map(m: StoreMap, name: Seq<u8>, generation: u64, len: u64) -> StoreMap {
    m.insert((name, meta_key()), pair_bytes(generation, len))
}

/// The store after `values` are appended, in order, to a list of length `len`.
pub open spec fn extend_map(
    m: StoreMap,
    name: Seq<u8>,
    generation: u64,
    len: u64,
    values: Seq<u64>,
) -> StoreMap
    decreases values.len(),
{
    if values.len() == 0 {
        m
    } else {
        push_map(
            extend_map(m, name, generation, len, values.drop_last()),
            name,
            generation,
            (len + values.len() - 1) as u64,
            values.last(),
        )
    }
}

/// The writes that append `values`, in order, to a list of length `len`.
pub open spec fn extend_writes(name: Seq<u8>, generation: u64, len: u64, values: Seq<u64>) -> Seq<
    ChangeView,
>
    decreases values.len(),
{
    if values.len() == 0 {
        Seq::empty()
    } else {
        extend_writes(name, generation, len, values.drop_last()) + push_writes(
            name,
            generation,
            (len + values.len() - 1) as u64,
            values.last(),
        )
    }
}

/// The writes of an extend on a list in the given state; none where it
/// fails.
pub open spec fn extend_log(m: StoreMap, name: Seq<u8>, values: Seq<u64>) -> Seq<ChangeView> {
    match list_state(m, name) {
        None => Seq::empty(),
        Some(s) => if s.1 + values.len() > u64::MAX {
            Seq::empty()
        } else {
            extend_writes(name, s.0, s.1, values)
        },
    }
}

/// The sixteen bytes of a pair give both numbers back, and differ from the
/// empty key.
pub proof fn lemma_pair(a: u64, b: u64)
    ensures
        pair_bytes(a, b).len() == 16,
        pair_bytes(a, b) != meta_key(),
        pair_bytes(a, b).subrange(0, 8) == spec_u64_to_le_bytes(a),
        pair_bytes(a, b).subrange(8, 16) == spec_u64_to_le_bytes(b),
        spec_u64_from_le_bytes(pair_bytes(a, b).subrange(0, 8)) == a,
        spec_u64_from_le_bytes(pair_bytes(a, b).subrange(8, 16)) == b,
        spec_u64_to_le_bytes(a).len() == 8,
        spec_u64_from_le_bytes(spec_u64_to_le_bytes(a)) == a,
{
    lemma_auto_spec_u64_to_from_le_bytes();
    assert(pair_bytes(a, b).subrange(0, 8) =~= spec_u64_to_le_bytes(a));
    assert(pair_bytes(a, b).subrange(8, 16) =~= spec_u64_to_le_bytes(b));
}

/// Two pairs with the same bytes are the same pair.
pub proof fn lemma_pair_injective(a: u64, b: u64, c: u64, d: u64)
    requires
        pair_bytes(a, b) == pair_bytes(c, d),
    ensures
        a == c,
        b == d,
{
    lemma_pair(a, b);
    lemma_pair(c, d);
}

/// Appending to a well-formed list makes it one longer, puts the value at
/// the old length and leaves every other position as it was.
pub proof fn law_push(m: StoreMap, name: Seq<u8>, generation: u64, len: u64, value: u64)
    requires
        list_state(m, name) == Some((generation, len)),
        len < u64::MAX,
    ensures
        list_state(push_map(m, name, generation, len, value), name) == Some(
            (generation, (len + 1) as u64),
        ),
        list_get(push_map(m, name, generation, len, value), name, len) == Some(value),
        forall|i: u64|
            i != len ==> #[trigger] list_item(
                push_map(m, name, generation, len, value),
                name,
                generation,
                i,
            ) == list_item(m, name, generation, i),
{
    let after = push_map(m, name, generation, len, value);
    lemma_pair(generation, len);
    lemma_pair(generation, (len + 1) as u64);
    lemma_pair(value, value);
    assert forall|i: u64| i != len implies #[trigger] list_item(after, name, generation, i)
        == list_item(m, name, generation, i) by {
        lemma_pair(generation, i);
        if pair_bytes(generation, i) == pair_bytes(generation, len) {
            lemma_pair_injective(generation, i, generation, len);
        }
    }
}

/// A push followed by a pop gives the pushed value back and restores the
/// length and every item that the list had before.
pub proof fn law_push_then_pop(m: StoreMap, name: Seq<u8>, generation: u64, len: u64, value: u64)
    requires
        list_state(m, name) == Some((generation, len)),
        len < u64::MAX,
    ensures
        ({
            let pushed = push_map(m, name, generation, len, value);
            let popped = pop_map(pushed, name, generation, (len + 1) as u64);
            &&& list_state(pushed, name) == Some((generation, (len + 1) as u64))
            &&& list_item(pushed, name, generation, len) == Some(value)
            &&& list_len(popped, name) == Some(len)
            &&& forall|i: u64| #[trigger] list_get(popped, name, i) == list_get(m, name, i)
        }),
{
    let pushed = push_map(m, name, generation, len, value);
    let popped = pop_map(pushed, name, generation, (len + 1) as u64);
    law_push(m, name, generation, len, value);
    lemma_pair(generation, len);
    assert forall|i: u64| #[trigger] list_get(popped, name, i) == list_get(m, name, i) by {
        lemma_pair(generation, i);
        if i < len {
            if pair_bytes(generation, i) == pair_bytes(generation, len) {
                lemma_pair_injective(generation, i, generation, len);
            }
            assert(list_item(pushed, name, generation, i) == list_item(m, name, generation, i));
        }
    }
}

/// Setting the length of a well-formed list to `len` gives a list of that
/// length whose items below `len` are what they were.
pub proof fn law_resize(m: StoreMap, name: Seq<u8>, generation: u64, len: u64)
    ensures
        list_state(resize_map(m, name, generation, len), name) == Some((generation, len)),
        forall|g: u64, i: u64| #[trigger]
            list_item(resize_map(m, name, generation, len), name, g, i) == list_item(
                m,
                name,
                g,
                i,
            ),
{
    lemma_pair(generation, len);
    assert forall|g: u64, i: u64| #[trigger]
        list_item(resize_map(m, name, generation, len), name, g, i) == list_item(
            m,
            name,
            g,
            i,
        ) by {
        lemma_pair(g, i);
    }
}

/// The store after a list of length `previous` is truncated to `len`.
pub open spec fn truncate_map(
    m: StoreMap,
    name: Seq<u8>,
    generation: u64,
    previous: u64,
    len: u64,
) -> StoreMap {
    if len < previous {
        resize_map(m, name, generation, len)
    } else {
        m
    }
}

/// Truncating to `len` leaves the smaller of `len` and the previous length,
/// and the items below it as they were.
pub proof fn law_truncate(m: StoreMap, name: Seq<u8>, generation: u64, previous: u64, len: u64)
    requires
        list_state(m, name) == Some((generation, previous)),
    ensures
        list_len(truncate_map(m, name, generation, previous, len), name) == Some(
            if len < previous {
                len
            } else {
                previous
            },
        ),
        forall|i: u64|
            i < len ==> #[trigger] list_get(
                truncate_map(m, name, generation, previous, len),
                name,
                i,
            ) == list_get(m, name, i),
{
    law_resize(m, name, generation, len);
}

/// After a clear the list is empty: its length is zero and no position
/// holds an item.
pub proof fn law_clear(m: StoreMap, name: Seq<u8>, generation: u64)
    requires
        generation < u64::MAX,
    ensures
        list_len(resize_map(m, name, (generation + 1) as u64, 0), name) == Some(0u64),
        forall|i: u64| #[trigger]
            list_get(resize_map(m, name, (generation + 1) as u64, 0), name, i).is_none(),
{
    law_resize(m, name, (generation + 1) as u64, 0);
}

/// Appending a sequence of values makes the list that much longer.
pub proof fn law_extend_state(
    m: StoreMap,
    name: Seq<u8>,
    generation: u64,
    len: u64,
    values: Seq<u64>,
)
    requires
        list_state(m, name) == Some((generation, len)),
        len + values.len() <= u64::MAX,
    ensures
        list_state(extend_map(m, name, generation, len, values), name) == Some(
            (generation, (len + values.len()) as u64),
        ),
    decreases values.len(),
{
    if values.len() > 0 {
        law_extend_state(m, name, generation, len, values.drop_last());
        law_push(
            extend_map(m, name, generation, len, values.drop_last()),
            name,
            generation,
            (len + values.len() - 1) as u64,
            values.last(),
        );
    }
}

fn encode_pair(a: u64, b: u64) -> (out: Vec<u8>)
    ensures
        out@ == pair_bytes(a, b),
{
    let mut out = u64_to_le_bytes(a);
    let mut tail = u64_to_le_bytes(b);
    out.append(&mut tail);
    out
}

fn read_state<R: Readable>(store: &R, name: &[u8]) -> (r: Result<(u64, u64), FatalStorageError>)
    ensures
        match list_state(store.contents(), name@) {
            Some(s) => r == Ok::<(u64, u64), FatalStorageError>(s),
            None => r == Err::<(u64, u64), FatalStorageError>(FatalStorageError::Corrupted),
        },
{
    let empty: Vec<u8> = Vec::new();
    assert(empty@ =~= meta_key());
    match store.read(name, empty.as_slice()) {
        None => Ok((0, 0)),
        Some(b) => {
            if b.len() == 16 {
                let generation = u64_from_le_bytes(slice_subrange(b.as_slice(), 0, 8));
                let len = u64_from_le_bytes(slice_subrange(b.as_slice(), 8, 16));
                Ok((generation, len))
            } else {
                Err(FatalStorageError::Corrupted)
            }
        },
    }
}

fn read_item<R: Readable>(store: &R, name: &[u8], generation: u64, i: u64) -> (r: Option<u64>)
    ensures
        r == list_item(store.contents(), name@, generation, i),
{
    let key = encode_pair(generation, i);
    match store.read(name, key.as_slice()) {
        None => None,
        Some(b) => {
            if b.len() == 8 {
                Some(u64_from_le_bytes(b.as_slice()))
            } else {
                None
            }
        },
    }
}

/// A handle on the list that is stored under a name.
pub struct ListIndex {
    name: Vec<u8>,
}

impl ListIndex {
    /// The name under which the list is stored.
    pub closed spec fn name(&self) -> Seq<u8> {
        self.name@
    }

    /// The list stored under `name`.
    pub fn new(name: &str) -> (index: ListIndex)
        ensures
            index.name() == name.spec_bytes(),
    {
        ListIndex { name: copy_bytes(name.as_bytes()) }
    }

    /// The number of items. Fails exactly when the stored state is malformed.
    pub fn len<R: Readable>(&self, store: &R) -> (r: Result<u64, FatalStorageError>)
        ensures
            match list_len(store.contents(), self.name()) {
                Some(n) => r == Ok::<u64, FatalStorageError>(n),
                None => r == Err::<u64, FatalStorageError>(FatalStorageError::Corrupted),
            },
    {
        match read_state(store, self.name.as_slice()) {
            Ok(s) => Ok(s.1),
            Err(e) => Err(e),
        }
    }

    /// Whether the list has no items.
    pub fn is_empty<R: Readable>(&self, store: &R) -> (r: Result<bool, FatalStorageError>)
        ensures
            match list_len(store.contents(), self.name()) {
                Some(n) => r == Ok::<bool, FatalStorageError>(n == 0),
                None => r == Err::<bool, FatalStorageError>(FatalStorageError::Corrupted),
            },
    {
        match read_state(store, self.name.as_slice()) {
            Ok(s) => Ok(s.1 == 0),
            Err(e) => Err(e),
        }
    }

    /// The item at position `i`, or `None` at or beyond the length. Fails
    /// exactly when the stored state, or the entry of an item within the
    /// length, is malformed or missing.
    pub fn get<R: Readable>(&self, store: &R, i: u64) -> (r: Result<Option<u64>, FatalStorageError>)
        ensures
            match list_state(store.contents(), self.name()) {
                None => r == Err::<Option<u64>, FatalStorageError>(FatalStorageError::Corrupted),
                Some(s) => if i >= s.1 {
                    r == Ok::<Option<u64>, FatalStorageError>(None)
                } else {
                    match list_item(store.contents(), self.name(), s.0, i) {
                        Some(v) => r == Ok::<Option<u64>, FatalStorageError>(Some(v)),
                        None => r == Err::<Option<u64>, FatalStorageError>(
                            FatalStorageError::Corrupted,
                        ),
                    }
                },
            },
    {
        let s = match read_state(store, self.name.as_slice()) {
            Ok(s) => s,
            Err(e) => {
                return Err(e);
            },
        };
        if i >= s.1 {
            return Ok(None);
        }
        match read_item(store, self.name.as_slice(), s.0, i) {
            Some(v) => Ok(Some(v)),
            None => Err(FatalStorageError::Corrupted),
        }
    }

    /// The last item, or `None` if the list is empty.
    pub fn last<R: Readable>(&self, store: &R) -> (r: Result<Option<u64>, FatalStorageError>)
        ensures
            match list_state(store.contents(), self.name()) {
                None => r == Err::<Option<u64>, FatalStorageError>(FatalStorageError::Corrupted),
                Some(s) => if s.1 == 0 {
                    r == Ok::<Option<u64>, FatalStorageError>(None)
                } else {
                    match list_item(store.contents(), self.name(), s.0, (s.1 - 1) as u64) {
                        Some(v) => r == Ok::<Option<u64>, FatalStorageError>(Some(v)),
                        None => r == Err::<Option<u64>, FatalStorageError>(
                            FatalStorageError::Corrupted,
                        ),
                    }
                },
            },
    {
        let s = match read_state(store, self.name.as_slice()) {
            Ok(s) => s,
            Err(e) => {
                return Err(e);
            },
        };
        if s.1 == 0 {
            return Ok(None);
        }
        match read_item(store, self.name.as_slice(), s.0, s.1 - 1) {
            Some(v) => Ok(Some(v)),
            None => Err(FatalStorageError::Corrupted),
        }
    }

    /// Appends `value`. Fails, and leaves the fork as it was, exactly when
    /// the stored state is malformed or the length cannot grow.
    pub fn push(&self, fork: &mut Fork, value: u64) -> (r: Result<(), FatalStorageError>)
        ensures
            final(fork).extends(*old(fork)),
            final(fork).adds(*old(fork), push_log(old(fork)@, self.name(), value)),
            match list_state(old(fork)@, self.name()) {
                None => r == Err::<(), FatalStorageError>(FatalStorageError::Corrupted)
                    && final(fork)@ == old(fork)@,
                Some(s) => if s.1 == u64::MAX {
                    r == Err::<(), FatalStorageError>(FatalStorageError::Exhausted) && final(fork)@ == old(fork)@
                } else {
                    r == Ok::<(), FatalStorageError>(()) && final(fork)@ == push_map(
                        old(fork)@,
                        self.name(),
                        s.0,
                        s.1,
                        value,
                    )
                },
            },
    {
        proof {
            lemma_extends_refl(*fork);
        }
        let s = match read_state(fork, self.name.as_slice()) {
            Ok(s) => s,
            Err(e) => {
                return Err(e);
            },
        };
        if s.1 == u64::MAX {
            return Err(FatalStorageError::Exhausted);
        }
        let key = encode_pair(s.0, s.1);
        fork.put(self.name.as_slice(), key.as_slice(), u64_to_le_bytes(value));
        let ghost mid = *fork;
        let meta = encode_pair(s.0, s.1 + 1);
        let empty: Vec<u8> = Vec::new();
        assert(empty@ =~= meta_key());
        fork.put(self.name.as_slice(), empty.as_slice(), meta);
        proof {
            lemma_extends_trans(*old(fork), mid, *fork);
            lemma_adds_trans(
                *old(fork),
                mid,
                *fork,
                seq![
                    (ChangeView {
                        name: self.name(),
                        key: pair_bytes(s.0, s.1),
                        value: Some(spec_u64_to_le_bytes(value)),
                    }),
                ],
                seq![
                    (ChangeView {
                        name: self.name(),
                        key: meta_key(),
                        value: Some(pair_bytes(s.0, (s.1 + 1) as u64)),
                    }),
                ],
            );
            assert(fork.changes() =~= old(fork).changes() + push_writes(
                self.name(),
                s.0,
                s.1,
                value,
            ));
        }
        Ok(())
    }

    /// Removes and returns the last item; `None`, and no change, if the list
    /// is empty. Fails, and leaves the fork as it was, exactly when the
    /// stored state or the last item's entry is malformed or missing.
    pub fn pop(&self, fork: &mut Fork) -> (r: Result<Option<u64>, FatalStorageError>)
        ensures
            final(fork).extends(*old(fork)),
            final(fork).adds(*old(fork), pop_log(old(fork)@, self.name())),
            match list_state(old(fork)@, self.name()) {
                None => r == Err::<Option<u64>, FatalStorageError>(FatalStorageError::Corrupted)
                    && final(fork)@ == old(fork)@,
                Some(s) => if s.1 == 0 {
                    r == Ok::<Option<u64>, FatalStorageError>(None) && final(fork)@ == old(fork)@
                } else {
                    match list_item(old(fork)@, self.name(), s.0, (s.1 - 1) as u64) {
                        None => r == Err::<Option<u64>, FatalStorageError>(
                            FatalStorageError::Corrupted,
                        ) && final(fork)@ == old(fork)@,
                        Some(v) => r == Ok::<Option<u64>, FatalStorageError>(Some(v)) && final(fork)@ == pop_map(old(fork)@, self.name(), s.0, s.1),
                    }
                },
            },
    {
        proof {
            lemma_extends_refl(*fork);
        }
        let s = match read_state(fork, self.name.as_slice()) {
            Ok(s) => s,
            Err(e) => {
                return Err(e);
            },
        };
        if s.1 == 0 {
            return Ok(None);
        }
        let v = match read_item(fork, self.name.as_slice(), s.0, s.1 - 1) {
            Some(v) => v,
            None => {
                return Err(FatalStorageError::Corrupted);
            },
        };
        let key = encode_pair(s.0, s.1 - 1);
        fork.remove(self.name.as_slice(), key.as_slice());
        let ghost mid = *fork;
        let meta = encode_pair(s.0, s.1 - 1);
        let empty: Vec<u8> = Vec::new();
        assert(empty@ =~= meta_key());
        fork.put(self.name.as_slice(), empty.as_slice(), meta);
        proof {
            lemma_extends_trans(*old(fork), mid, *fork);
            lemma_adds_trans(
                *old(fork),
                mid,
                *fork,
                remove_write(self.name(), pair_bytes(s.0, (s.1 - 1) as u64)),
                put_write(self.name(), meta_key(), pair_bytes(s.0, (s.1 - 1) as u64)),
            );
        }
        Ok(Some(v))
    }

    /// Replaces the item at position `i` and returns `true`; returns `false`,
    /// with no change, at or beyond the length.
    pub fn set(&self, fork: &mut Fork, i: u64, value: u64) -> (r: Result<bool, FatalStorageError>)
        ensures
            final(fork).extends(*old(fork)),
            final(fork).adds(*old(fork), set_log(old(fork)@, self.name(), i, value)),
            match list_state(old(fork)@, self.name()) {
                None => r == Err::<bool, FatalStorageError>(FatalStorageError::Corrupted)
                    && final(fork)@ == old(fork)@,
                Some(s) => if i >= s.1 {
                    r == Ok::<bool, FatalStorageError>(false) && final(fork)@ == old(fork)@
                } else {
                    r == Ok::<bool, FatalStorageError>(true) && final(fork)@ == old(fork)@.insert(
                        (self.name(), pair_bytes(s.0, i)),
                        spec_u64_to_le_bytes(value),
                    )
                },
            },
    {
        proof {
            lemma_extends_refl(*fork);
        }
        let s = match read_state(fork, self.name.as_slice()) {
            Ok(s) => s,
            Err(e) => {
                return Err(e);
            },
        };
        if i >= s.1 {
            return Ok(false);
        }
        let key = encode_pair(s.0, i);
        fork.put(self.name.as_slice(), key.as_slice(), u64_to_le_bytes(value));
        Ok(true)
    }

    /// Shortens the list to `len` items; no change if it is no longer.
    pub fn truncate(&self, fork: &mut Fork, len: u64) -> (r: Result<(), FatalStorageError>)
        ensures
            final(fork).extends(*old(fork)),
            final(fork).adds(*old(fork), truncate_log(old(fork)@, self.name(), len)),
            match list_state(old(fork)@, self.name()) {
                None => r == Err::<(), FatalStorageError>(FatalStorageError::Corrupted)
                    && final(fork)@ == old(fork)@,
                Some(s) => r == Ok::<(), FatalStorageError>(()) && final(fork)@ == (if len < s.1 {
                    resize_map(old(fork)@, self.name(), s.0, len)
                } else {
                    old(fork)@
                }),
            },
    {
        proof {
            lemma_extends_refl(*fork);
        }
        let s = match read_state(fork, self.name.as_slice()) {
            Ok(s) => s,
            Err(e) => {
                return Err(e);
            },
        };
        if len < s.1 {
            let meta = encode_pair(s.0, len);
            let empty: Vec<u8> = Vec::new();
            assert(empty@ =~= meta_key());
            fork.put(self.name.as_slice(), empty.as_slice(), meta);
        }
        Ok(())
    }

    /// Empties the list with one write: the list moves on to its next
    /// generation, of length zero.
    pub fn clear(&self, fork: &mut Fork) -> (r: Result<(), FatalStorageError>)
        ensures
            final(fork).extends(*old(fork)),
            final(fork).adds(*old(fork), clear_log(old(fork)@, self.name())),
            match list_state(old(fork)@, self.name()) {
                None => r == Err::<(), FatalStorageError>(FatalStorageError::Corrupted)
                    && final(fork)@ == old(fork)@,
                Some(s) => if s.0 == u64::MAX {
                    r == Err::<(), FatalStorageError>(FatalStorageError::Exhausted) && final(fork)@ == old(fork)@
                } else {
                    r == Ok::<(), FatalStorageError>(()) && final(fork)@ == resize_map(
                        old(fork)@,
                        self.name(),
                        (s.0 + 1) as u64,
                        0,
                    )
                },
            },
    {
        proof {
            lemma_extends_refl(*fork);
        }
        let s = match read_state(fork, self.name.as_slice()) {
            Ok(s) => s,
            Err(e) => {
                return Err(e);
            },
        };
        if s.0 == u64::MAX {
            return Err(FatalStorageError::Exhausted);
        }
        let meta = encode_pair(s.0 + 1, 0);
        let empty: Vec<u8> = Vec::new();
        assert(empty@ =~= meta_key());
        fork.put(self.name.as_slice(), empty.as_slice(), meta);
        Ok(())
    }

    /// Appends `values` in order. Fails, and leaves the fork as it was,
    /// exactly when the stored state is malformed or the length cannot grow
    /// by that much.
    pub fn extend(&self, fork: &mut Fork, values: &Vec<u64>) -> (r: Result<(), FatalStorageError>)
        ensures
            final(fork).extends(*old(fork)),
            final(fork).adds(*old(fork), extend_log(old(fork)@, self.name(), values@)),
            match list_state(old(fork)@, self.name()) {
                None => r == Err::<(), FatalStorageError>(FatalStorageError::Corrupted)
                    && final(fork)@ == old(fork)@,
                Some(s) => if s.1 + values@.len() > u64::MAX {
                    r == Err::<(), FatalStorageError>(FatalStorageError::Exhausted)
                        && final(fork)@ == old(fork)@
                } else {
                    r == Ok::<(), FatalStorageError>(()) && final(fork)@ == extend_map(
                        old(fork)@,
                        self.name(),
                        s.0,
                        s.1,
                        values@,
                    )
                },
            },
    {
        proof {
            lemma_extends_refl(*fork);
        }
        let s = match read_state(fork, self.name.as_slice()) {
            Ok(s) => s,
            Err(e) => {
                return Err(e);
            },
        };
        if values.len() as u128 + s.1 as u128 > u64::MAX as u128 {
            return Err(FatalStorageError::Exhausted);
        }
        let mut i: usize = 0;
        while i < values.len()
            invariant
                i <= values.len(),
                s.1 + values@.len() <= u64::MAX,
                list_state(old(fork)@, self.name()) == Some(s),
                fork.extends(*old(fork)),
                fork.adds(
                    *old(fork),
                    extend_writes(self.name(), s.0, s.1, values@.take(i as int)),
                ),
                fork@ == extend_map(old(fork)@, self.name(), s.0, s.1, values@.take(i as int)),
            decreases values.len() - i,
        {
            proof {
                law_extend_state(old(fork)@, self.name(), s.0, s.1, values@.take(i as int));
                assert(values@.take(i + 1).drop_last() =~= values@.take(i as int));
            }
            let ghost before = *fork;
            let pushed = self.push(fork, values[i]);
            proof {
                lemma_extends_trans(*old(fork), before, *fork);
                lemma_adds_trans(
                    *old(fork),
                    before,
                    *fork,
                    extend_writes(self.name(), s.0, s.1, values@.take(i as int)),
                    push_log(before@, self.name(), values@[i as int]),
                );
            }
            i += 1;
        }
        assert(values@.take(values.len() as int) =~= values@);
        Ok(())
    }
}

} // verus!
