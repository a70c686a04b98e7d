//! The versioned key-value store: database, snapshot, fork and patch.
//!
//! Every value lives under a pair of byte strings, the name of the index that
//! owns it and a key inside that index, so differently named indexes never
//! share an entry. The store is a log of changes; its contents are the log
//! replayed over the empty map.

use vstd::prelude::*;

verus! {

/// What the store holds: values by (index name, key).
pub type StoreMap = Map<(Seq<u8>, Seq<u8>), Seq<u8>>;

/// One buffered write: a value put under a key, or the key's removal.
#[derive(Debug)]
pub struct Change {
    pub name: Vec<u8>,
    pub key: Vec<u8>,
    pub value: Option<Vec<u8>>,
}

/// The mathematical content of a `Change`.
pub struct ChangeView {
    pub name: Seq<u8>,
    pub key: Seq<u8>,
    pub value: Option<Seq<u8>>,
}

impl View for Change {
    type V = ChangeView;

    open spec fn view(&self) -> ChangeView {
        ChangeView {
            name: self.name@,
            key: self.key@,
            value: match self.value {
                Some(v) => Some(v@),
                None => None,
            },
        }
    }
}

/// The views of a sequence of changes.
pub open spec fn views(log: Seq<Change>) -> Seq<ChangeView> {
    Seq::new(log.len(), |i: int| log[i]@)
}

/// The value under `k`, if there is one.
pub open spec fn lookup(m: StoreMap, k: (Seq<u8>, Seq<u8>)) -> Option<Seq<u8>> {
    if m.contains_key(k) {
        Some(m[k])
    } else {
        None
    }
}

/// The view of an optional byte vector.
pub open spec fn opt_view(v: Option<Vec<u8>>) -> Option<Seq<u8>> {
    match v {
        Some(b) => Some(b@),
        None => None,
    }
}

/// The one write that puts `value` under `key` in the index `name`.
pub open spec fn put_write(name: Seq<u8>, key: Seq<u8>, value: Seq<u8>) -> Seq<ChangeView> {
    seq![(ChangeView { name, key, value: Some(value) })]
}

/// The one write that removes `key` from the index `name`.
pub open spec fn remove_write(name: Seq<u8>, key: Seq<u8>) -> Seq<ChangeView> {
    seq![(ChangeView { name, key, value: None })]
}

/// The map after one change.
pub open spec fn apply_change(m: StoreMap, c: ChangeView) -> StoreMap {
    match c.value {
        Some(v) => m.insert((c.name, c.key), v),
        None => m.remove((c.name, c.key)),
    }
}

/// The map after a sequence of changes, applied first to last.
pub open spec fn apply_log(m: StoreMap, log: Seq<ChangeView>) -> StoreMap
    decreases log.len(),
{
    if log.len() == 0 {
        m
    } else {
        apply_change(apply_log(m, log.drop_last()), log.last())
    }
}

/// What the log itself says about `k`: the value of the last change that
/// names it (`Some(None)` for a removal), or `None` if no change names it.
pub open spec fn latest(log: Seq<ChangeView>, k: (Seq<u8>, Seq<u8>)) -> Option<Option<Seq<u8>>>
    decreases log.len(),
{
    if log.len() == 0 {
        None
    } else if (log.last().name, log.last().key) == k {
        Some(log.last().value)
    } else {
        latest(log.drop_last(), k)
    }
}

/// Replaying a log decides a key by its last change, and leaves every key
/// that no change names as it was.
pub proof fn lemma_latest_decides(m: StoreMap, log: Seq<ChangeView>, k: (Seq<u8>, Seq<u8>))
    ensures
        lookup(apply_log(m, log), k) == match latest(log, k) {
            Some(v) => v,
            None => lookup(m, k),
        },
    decreases log.len(),
{
    if log.len() > 0 {
        lemma_latest_decides(m, log.drop_last(), k);
    }
}

/// Replaying two logs one after the other is replaying their concatenation.
pub proof fn lemma_apply_concat(m: StoreMap, a: Seq<ChangeView>, b: Seq<ChangeView>)
    ensures
        apply_log(apply_log(m, a), b) == apply_log(m, a + b),
    decreases b.len(),
{
    if b.len() == 0 {
        assert(a + b =~= a);
    } else {
        lemma_apply_concat(m, a, b.drop_last());
        assert((a + b).drop_last() =~= a + b.drop_last());
        assert((a + b).last() == b.last());
    }
}

/// A value written on a fork is read back after the fork's writes are
/// merged: whatever the database held and whatever was buffered before, the
/// merged contents hold `value` under the key.
pub proof fn law_write_merge_read(
    base: StoreMap,
    earlier: Seq<ChangeView>,
    name: Seq<u8>,
    key: Seq<u8>,
    value: Seq<u8>,
)
    ensures
        lookup(
            apply_log(base, earlier.push(ChangeView { name, key, value: Some(value) })),
            (name, key),
        ) == Some(value),
{
    let log = earlier.push(ChangeView { name, key, value: Some(value) });
    assert(log.drop_last() =~= earlier);
}

/// Whether two byte strings are equal.
pub fn bytes_eq(a: &[u8], b: &[u8]) -> (r: bool)
    ensures
        r == (a@ == b@),
{
    if a.len() != b.len() {
        return false;
    }
    let mut i: usize = 0;
    while i < a.len()
        invariant
            i <= a.len(),
            a.len() == b.len(),
            forall|j: int| 0 <= j < i ==> a@[j] == b@[j],
        decreases a.len() - i,
    {
        if a[i] != b[i] {
            return false;
        }
        i += 1;
    }
    assert(a@ =~= b@);
    true
}

/// A copy of a byte string.
pub fn copy_bytes(a: &[u8]) -> (r: Vec<u8>)
    ensures
        r@ == a@,
{
    let mut r: Vec<u8> = Vec::new();
    let mut i: usize = 0;
    while i < a.len()
        invariant
            i <= a.len(),
            r@ == a@.take(i as int),
        decreases a.len() - i,
    {
        r.push(a[i]);
        i += 1;
        assert(r@ =~= a@.take(i as int));
    }
    assert(a@.take(a.len() as int) =~= a@);
    r
}

fn copy_change(c: &Change) -> (r: Change)
    ensures
        r@ == c@,
{
    Change {
        name: copy_bytes(c.name.as_slice()),
        key: copy_bytes(c.key.as_slice()),
        value: match &c.value {
            Some(v) => Some(copy_bytes(v.as_slice())),
            None => None,
        },
    }
}

fn append_log(dst: &mut Vec<Change>, src: &Vec<Change>)
    ensures
        views(final(dst)@) == views(old(dst)@) + views(src@),
{
    let mut i: usize = 0;
    while i < src.len()
        invariant
            i <= src.len(),
            views(dst@) == views(old(dst)@) + views(src@).take(i as int),
        decreases src.len() - i,
    {
        let ghost before = views(dst@);
        let c = copy_change(&src[i]);
        dst.push(c);
        i += 1;
        assert(views(dst@) =~= before.push(c@));
        assert(views(src@).take(i as int) =~= views(src@).take(i - 1).push(c@));
        assert(views(dst@) =~= views(old(dst)@) + views(src@).take(i as int));
    }
    assert(views(src@).take(src.len() as int) =~= views(src@));
}

fn copy_log(log: &Vec<Change>) -> (r: Vec<Change>)
    ensures
        views(r@) == views(log@),
{
    let mut r: Vec<Change> = Vec::new();
    append_log(&mut r, log);
    assert(views(r@) =~= views(log@));
    r
}

fn find_latest(log: &Vec<Change>, name: &[u8], key: &[u8]) -> (r: Option<Option<Vec<u8>>>)
    ensures
        match r {
            Some(v) => latest(views(log@), (name@, key@)) == Some(opt_view(v)),
            None => latest(views(log@), (name@, key@)).is_none(),
        },
{
    let ghost k = (name@, key@);
    let mut i: usize = log.len();
    assert(views(log@).take(i as int) =~= views(log@));
    while i > 0
        invariant
            i <= log.len(),
            k == (name@, key@),
            latest(views(log@), k) == latest(views(log@).take(i as int), k),
        decreases i,
    {
        let c = &log[i - 1];
        proof {
            let pre = views(log@).take(i as int);
            assert(pre.drop_last() =~= views(log@).take(i - 1));
            assert(pre.last() == c@);
        }
        if bytes_eq(c.name.as_slice(), name) && bytes_eq(c.key.as_slice(), key) {
            let v = match &c.value {
                Some(b) => Some(copy_bytes(b.as_slice())),
                None => None,
            };
            return Some(v);
        }
        i -= 1;
    }
    None
}

/// An immutable diff: the writes that a fork buffered, in order.
#[derive(Debug)]
pub struct Patch {
    changes: Vec<Change>,
}

impl View for Patch {
    type V = Seq<ChangeView>;

    closed spec fn view(&self) -> Seq<ChangeView> {
        views(self.changes@)
    }
}

impl Patch {
    /// How many writes the patch holds.
    pub fn len(&self) -> (n: usize)
        ensures
            n == self@.len(),
    {
        self.changes.len()
    }
}

/// An immutable, point-in-time read view of a database.
#[derive(Debug)]
pub struct Snapshot {
    log: std::sync::Arc<Vec<Change>>,
}

impl View for Snapshot {
    type V = StoreMap;

    closed spec fn view(&self) -> StoreMap {
        apply_log(Map::empty(), views((*self.log)@))
    }
}

impl Snapshot {
    /// The value stored under `key` in the index `name`.
    pub fn get(&self, name: &[u8], key: &[u8]) -> (r: Option<Vec<u8>>)
        ensures
            opt_view(r) == lookup(self@, (name@, key@)),
    {
        proof {
            lemma_latest_decides(Map::empty(), views((*self.log)@), (name@, key@));
        }
        match find_latest(&*self.log, name, key) {
            Some(v) => v,
            None => None,
        }
    }

    /// Whether a value is stored under `key` in the index `name`.
    pub fn contains(&self, name: &[u8], key: &[u8]) -> (r: bool)
        ensures
            r == self@.contains_key((name@, key@)),
    {
        self.get(name, key).is_some()
    }
}

/// A mutable overlay of buffered writes on top of a snapshot.
#[derive(Debug)]
pub struct Fork {
    base: std::sync::Arc<Vec<Change>>,
    changes: Vec<Change>,
}

impl View for Fork {
    type V = StoreMap;

    open spec fn view(&self) -> StoreMap {
        apply_log(self.base(), self.changes())
    }
}

impl Fork {
    /// The contents of the snapshot under the fork.
    pub closed spec fn base(&self) -> StoreMap {
        apply_log(Map::empty(), views((*self.base)@))
    }

    /// The writes buffered so far, oldest first.
    pub closed spec fn changes(&self) -> Seq<ChangeView> {
        views(self.changes@)
    }

    /// `self` is `earlier` with exactly `writes` buffered on top.
    pub open spec fn adds(&self, earlier: Fork, writes: Seq<ChangeView>) -> bool {
        &&& self.base() == earlier.base()
        &&& self.changes() == earlier.changes() + writes
    }

    /// `self` is `earlier` with more writes buffered on top.
    pub open spec fn extends(&self, earlier: Fork) -> bool {
        &&& self.base() == earlier.base()
        &&& earlier.changes().len() <= self.changes().len()
        &&& self.changes().take(earlier.changes().len() as int) == earlier.changes()
    }

    /// The value under `key` in the index `name`: the buffered write if there
    /// is one, else what the snapshot holds.
    pub fn get(&self, name: &[u8], key: &[u8]) -> (r: Option<Vec<u8>>)
        ensures
            opt_view(r) == lookup(self@, (name@, key@)),
    {
        proof {
            lemma_latest_decides(self.base(), views(self.changes@), (name@, key@));
            lemma_latest_decides(Map::empty(), views((*self.base)@), (name@, key@));
        }
        match find_latest(&self.changes, name, key) {
            Some(v) => v,
            None => match find_latest(&*self.base, name, key) {
                Some(v) => v,
                None => None,
            },
        }
    }

    /// Whether a value is visible under `key` in the index `name`.
    pub fn contains(&self, name: &[u8], key: &[u8]) -> (r: bool)
        ensures
            r == self@.contains_key((name@, key@)),
    {
        self.get(name, key).is_some()
    }

    /// Buffers a write of `value` under `key` in the index `name`.
    pub fn put(&mut self, name: &[u8], key: &[u8], value: Vec<u8>)
        ensures
            final(self)@ == old(self)@.insert((name@, key@), value@),
            final(self).base() == old(self).base(),
            final(self).changes() == old(self).changes().push(
                (ChangeView { name: name@, key: key@, value: Some(value@) }),
            ),
            final(self).adds(
                *old(self),
                seq![(ChangeView { name: name@, key: key@, value: Some(value@) })],
            ),
            final(self).extends(*old(self)),
    {
        let c = Change { name: copy_bytes(name), key: copy_bytes(key), value: Some(value) };
        self.changes.push(c);
        proof {
            let after = views(self.changes@);
            assert(after =~= old(self).changes().push(c@));
            assert(after =~= old(self).changes() + seq![c@]);
            assert(after.drop_last() =~= old(self).changes());
            assert(after.take(old(self).changes().len() as int) =~= old(self).changes());
        }
    }

    /// Buffers the removal of `key` from the index `name`.
    pub fn remove(&mut self, name: &[u8], key: &[u8])
        ensures
            final(self)@ == old(self)@.remove((name@, key@)),
            final(self).base() == old(self).base(),
            final(self).changes() == old(self).changes().push(
                (ChangeView { name: name@, key: key@, value: None }),
            ),
            final(self).adds(
                *old(self),
                seq![(ChangeView { name: name@, key: key@, value: None })],
            ),
            final(self).extends(*old(self)),
    {
        let c = Change { name: copy_bytes(name), key: copy_bytes(key), value: None };
        self.changes.push(c);
        proof {
            let after = views(self.changes@);
            assert(after =~= old(self).changes().push(c@));
            assert(after =~= old(self).changes() + seq![c@]);
            assert(after.drop_last() =~= old(self).changes());
            assert(after.take(old(self).changes().len() as int) =~= old(self).changes());
        }
    }

    /// The number of writes buffered so far: a mark to roll back to.
    pub fn checkpoint(&self) -> (mark: usize)
        ensures
            mark == self.changes().len(),
    {
        self.changes.len()
    }

    /// Discards every write buffered after `mark`.
    pub fn rollback(&mut self, mark: usize)
        requires
            mark <= old(self).changes().len(),
        ensures
            final(self).base() == old(self).base(),
            final(self).changes() == old(self).changes().take(mark as int),
    {
        self.changes.truncate(mark);
        assert(views(self.changes@) =~= old(self).changes().take(mark as int));
    }

    /// Consumes the fork and yields its buffered writes as a patch.
    pub fn into_patch(self) -> (patch: Patch)
        ensures
            patch@ == self.changes(),
    {
        Patch { changes: self.changes }
    }
}

/// Anything that values can be read from: a snapshot or a fork.
pub trait Readable {
    /// The contents that reads are answered from.
    spec fn contents(&self) -> StoreMap;

    /// The value under `key` in the index `name`.
    fn read(&self, name: &[u8], key: &[u8]) -> (r: Option<Vec<u8>>)
        ensures
            opt_view(r) == lookup(self.contents(), (name@, key@)),
    ;
}

impl Readable for Snapshot {
    open spec fn contents(&self) -> StoreMap {
        self@
    }

    fn read(&self, name: &[u8], key: &[u8]) -> (r: Option<Vec<u8>>) {
        self.get(name, key)
    }
}

impl Readable for Fork {
    open spec fn contents(&self) -> StoreMap {
        self@
    }

    fn read(&self, name: &[u8], key: &[u8]) -> (r: Option<Vec<u8>>) {
        self.get(name, key)
    }
}

/// A fork extends itself, and adds no write to itself.
pub proof fn lemma_extends_refl(a: Fork)
    ensures
        a.extends(a),
        a.adds(a, Seq::<ChangeView>::empty()),
{
    assert(a.changes().take(a.changes().len() as int) =~= a.changes());
    assert(a.changes() + Seq::<ChangeView>::empty() =~= a.changes());
}

/// A fork that adds writes to another extends it and shows what the other
/// showed with those writes replayed on top.
pub proof fn lemma_adds(a: Fork, b: Fork, writes: Seq<ChangeView>)
    requires
        b.adds(a, writes),
    ensures
        b.extends(a),
        b@ == apply_log(a@, writes),
{
    assert((a.changes() + writes).take(a.changes().len() as int) =~= a.changes());
    lemma_apply_concat(a.base(), a.changes(), writes);
}

/// Writes added one after the other are added as their concatenation.
pub proof fn lemma_adds_trans(
    a: Fork,
    b: Fork,
    c: Fork,
    first: Seq<ChangeView>,
    second: Seq<ChangeView>,
)
    requires
        b.adds(a, first),
        c.adds(b, second),
    ensures
        c.adds(a, first + second),
{
    assert((a.changes() + first) + second =~= a.changes() + (first + second));
}

/// Extension is transitive.
pub proof fn lemma_extends_trans(a: Fork, b: Fork, c: Fork)
    requires
        b.extends(a),
        c.extends(b),
    ensures
        c.extends(a),
{
    let n = a.changes().len() as int;
    assert(c.changes().take(n) =~= c.changes().take(b.changes().len() as int).take(n));
}

/// The durable store, held in memory as the log of every merged write.
/// Snapshots and forks share the log that they were made from; a merge
/// writes a new one.
#[derive(Debug)]
pub struct Database {
    log: std::sync::Arc<Vec<Change>>,
}

/// Calls `Arc::clone`, which hands out one more handle on the same log
/// without copying it.
#[verifier::external_body]
fn share_log(log: &std::sync::Arc<Vec<Change>>) -> (shared: std::sync::Arc<Vec<Change>>)
    ensures
        *shared == **log,
{
    std::sync::Arc::clone(log)
}

impl View for Database {
    type V = StoreMap;

    closed spec fn view(&self) -> StoreMap {
        apply_log(Map::empty(), views((*self.log)@))
    }
}

/// Why the store refused an operation. Every such failure is fatal: the
/// caller must not go on with normal operation.
#[derive(Clone, Copy, Debug, PartialEq, Eq, Structural)]
pub enum FatalStorageError {
    /// Stored bytes do not decode.
    Corrupted,
    /// A counter of the store has reached its largest value.
    Exhausted,
    /// A storage fault was reported while a block was being built.
    Reported,
}

impl Database {
    /// An empty database.
    pub fn new() -> (db: Database)
        ensures
            db@ == Map::<(Seq<u8>, Seq<u8>), Seq<u8>>::empty(),
    {
        let db = Database { log: std::sync::Arc::new(Vec::new()) };
        assert(views((*db.log)@) =~= Seq::empty());
        db
    }

    /// A read view of the current contents.
    pub fn snapshot(&self) -> (s: Snapshot)
        ensures
            s@ == self@,
    {
        Snapshot { log: share_log(&self.log) }
    }

    /// A fork over the current contents, with nothing buffered.
    pub fn fork(&self) -> (f: Fork)
        ensures
            f.base() == self@,
            f.changes() == Seq::<ChangeView>::empty(),
            f@ == self@,
    {
        let f = Fork { base: share_log(&self.log), changes: Vec::new() };
        assert(views(f.changes@) =~= Seq::empty());
        f
    }

    /// Applies every write of `patch`, in order, as one step.
    pub fn merge(&mut self, patch: Patch) -> (r: Result<(), FatalStorageError>)
        ensures
            r.is_ok(),
            final(self)@ == apply_log(old(self)@, patch@),
    {
        proof {
            lemma_apply_concat(Map::empty(), views((*self.log)@), patch@);
        }
        let mut log = copy_log(&*self.log);
        append_log(&mut log, &patch.changes);
        self.log = std::sync::Arc::new(log);
        Ok(())
    }
}

} // verus!
