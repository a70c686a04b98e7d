//! A map from 64-bit keys to byte strings with a Merkle root.
//!
//! The root is the hash of a binary trie over the keys' bits in which a
//! branch exists only where both halves of a range hold a key. It is defined
//! on the map alone, so every sequence of inserts and removes that ends at
//! the same map gives the same root.

use crate::crypto::{hash, sha256};
use crate::storage::{bytes_eq, copy_bytes, opt_view};
use vstd::bytes::*;
use vstd::prelude::*;

verus! {

/// The number of possible keys.
pub const KEY_SPACE: u128 = 0x1_0000_0000_0000_0000;

/// One key with its value.
#[derive(Clone, Debug, PartialEq, Eq)]
pub struct ProofEntry {
    pub key: u64,
    pub value: Vec<u8>,
}

/// Keys strictly ascend.
pub open spec fn sorted(s: Seq<ProofEntry>) -> bool {
    forall|i: int, j: int| 0 <= i < j < s.len() ==> s[i].key < s[j].key
}

/// Some entry has the key `k`.
pub open spec fn has_key(s: Seq<ProofEntry>, k: u64) -> bool {
    exists|i: int| 0 <= i < s.len() && s[i].key == k
}

/// The position of an entry with key `k`.
pub open spec fn index_of(s: Seq<ProofEntry>, k: u64) -> int {
    choose|i: int| 0 <= i < s.len() && s[i].key == k
}

/// The map that a sequence of entries stands for.
pub open spec fn entries_map(s: Seq<ProofEntry>) -> Map<u64, Seq<u8>> {
    Map::new(|k: u64| has_key(s, k), |k: u64| s[index_of(s, k)].value@)
}

/// In a sorted sequence every entry is the map's entry for its key.
pub proof fn lemma_entry_in_map(s: Seq<ProofEntry>, i: int)
    requires
        sorted(s),
        0 <= i < s.len(),
    ensures
        entries_map(s).contains_key(s[i].key),
        entries_map(s)[s[i].key] == s[i].value@,
{
    let k = s[i].key;
    assert(has_key(s, k));
    let j = index_of(s, k);
    if j < i {
        assert(s[j].key < s[i].key);
    }
    if i < j {
        assert(s[i].key < s[j].key);
    }
}

/// The hash of an empty map, and of every empty range of keys.
pub open spec fn empty_hash() -> Seq<u8> {
    Seq::new(32, |i: int| 0u8)
}

/// The hash of the leaf that holds `value` under `key`.
pub open spec fn leaf_hash(key: u64, value: Seq<u8>) -> Seq<u8> {
    sha256(seq![0u8] + spec_u64_to_le_bytes(key) + value)
}

/// The hash of a branch over two populated halves.
pub open spec fn branch_hash(left: Seq<u8>, right: Seq<u8>) -> Seq<u8> {
    sha256(seq![1u8] + left + right)
}

/// Some key of the map lies in `[lo, hi)`.
pub open spec fn populated(m: Map<u64, Seq<u8>>, lo: int, hi: int) -> bool {
    exists|k: u64| #[trigger] m.contains_key(k) && lo <= k < hi
}

/// The hash of the keys in `[lo, lo + width)`: the empty hash if there is
/// none, the leaf's hash in a range of one key, the hash of the one
/// populated half if the other is empty, and a branch over both otherwise.
pub open spec fn node_hash(m: Map<u64, Seq<u8>>, lo: int, width: int) -> Seq<u8>
    decreases width,
{
    if width <= 1 {
        if m.contains_key(lo as u64) {
            leaf_hash(lo as u64, m[lo as u64])
        } else {
            empty_hash()
        }
    } else {
        let half = width / 2;
        let left = populated(m, lo, lo + half);
        let right = populated(m, lo + half, lo + width);
        if left && right {
            branch_hash(node_hash(m, lo, half), node_hash(m, lo + half, width - half))
        } else if left {
            node_hash(m, lo, half)
        } else if right {
            node_hash(m, lo + half, width - half)
        } else {
            empty_hash()
        }
    }
}

/// The Merkle root of a map.
pub open spec fn root_of(m: Map<u64, Seq<u8>>) -> Seq<u8> {
    node_hash(m, 0, KEY_SPACE as int)
}

/// A range without keys has the empty hash.
pub proof fn lemma_unpopulated(m: Map<u64, Seq<u8>>, lo: int, width: int)
    requires
        0 <= lo,
        1 <= width,
        lo + width <= KEY_SPACE,
        !populated(m, lo, lo + width),
    ensures
        node_hash(m, lo, width) == empty_hash(),
{
    if width <= 1 {
        if m.contains_key(lo as u64) {
            assert(populated(m, lo, lo + width));
        }
    } else {
        let half = width / 2;
        if populated(m, lo, lo + half) {
            let k = choose|k: u64| #[trigger] m.contains_key(k) && lo <= k < lo + half;
            assert(m.contains_key(k) && lo <= k < lo + width);
        }
        if populated(m, lo + half, lo + width) {
            let k = choose|k: u64| #[trigger] m.contains_key(k) && lo + half <= k < lo + width;
            assert(m.contains_key(k) && lo <= k < lo + width);
        }
    }
}

/// The entries at positions `[i, j)` are exactly those with keys in
/// `[lo, hi)`.
pub open spec fn covers(s: Seq<ProofEntry>, i: int, j: int, lo: int, hi: int) -> bool {
    &&& 0 <= i <= j <= s.len()
    &&& forall|x: int| i <= x < j ==> lo <= #[trigger] s[x].key < hi
    &&& forall|x: int| 0 <= x < i ==> #[trigger] s[x].key < lo
    &&& forall|x: int| j <= x < s.len() ==> #[trigger] s[x].key >= hi
}

/// A range of keys is populated exactly when entries lie in it.
pub proof fn lemma_covers_populated(s: Seq<ProofEntry>, i: int, j: int, lo: int, hi: int)
    requires
        sorted(s),
        covers(s, i, j, lo, hi),
    ensures
        populated(entries_map(s), lo, hi) <==> i < j,
{
    let m = entries_map(s);
    if i < j {
        lemma_entry_in_map(s, i);
        assert(m.contains_key(s[i].key) && lo <= s[i].key < hi);
    }
    if populated(m, lo, hi) {
        let k = choose|k: u64| #[trigger] m.contains_key(k) && lo <= k < hi;
        assert(has_key(s, k));
        let x = index_of(s, k);
        if x < i {
            assert(s[x].key < lo);
        }
        if x >= j {
            assert(s[x].key >= hi);
        }
    }
}

fn empty_hash_bytes() -> (out: Vec<u8>)
    ensures
        out@ == empty_hash(),
{
    let mut out: Vec<u8> = Vec::new();
    let mut i: usize = 0;
    while i < 32
        invariant
            i <= 32,
            out@ == Seq::new(i as nat, |j: int| 0u8),
        decreases 32 - i,
    {
        out.push(0);
        i += 1;
        assert(out@ =~= Seq::new(i as nat, |j: int| 0u8));
    }
    out
}

fn leaf_hash_bytes(key: u64, value: &Vec<u8>) -> (out: Vec<u8>)
    ensures
        out@ == leaf_hash(key, value@),
{
    let mut input: Vec<u8> = vec![0u8];
    assert(input@ =~= seq![0u8]);
    let mut k = u64_to_le_bytes(key);
    input.append(&mut k);
    let mut v = copy_bytes(value.as_slice());
    input.append(&mut v);
    hash(input.as_slice()).bytes
}

fn branch_hash_bytes(left: &Vec<u8>, right: &Vec<u8>) -> (out: Vec<u8>)
    ensures
        out@ == branch_hash(left@, right@),
{
    let mut input: Vec<u8> = vec![1u8];
    assert(input@ =~= seq![1u8]);
    let mut l = copy_bytes(left.as_slice());
    input.append(&mut l);
    let mut r = copy_bytes(right.as_slice());
    input.append(&mut r);
    hash(input.as_slice()).bytes
}

/// The first position in `[i, j]` whose key is at least `bound`.
fn split_point(entries: &Vec<ProofEntry>, i: usize, j: usize, bound: u128) -> (s: usize)
    requires
        sorted(entries@),
        i <= j <= entries@.len(),
    ensures
        i <= s <= j,
        forall|x: int| i <= x < s ==> (#[trigger] entries@[x]).key < bound,
        forall|x: int| s <= x < j ==> (#[trigger] entries@[x]).key >= bound,
{
    let mut s: usize = i;
    while s < j && (entries[s].key as u128) < bound
        invariant
            i <= s <= j <= entries@.len(),
            forall|x: int| i <= x < s ==> (#[trigger] entries@[x]).key < bound,
        decreases j - s,
    {
        s += 1;
    }
    assert forall|x: int| s <= x < j implies (#[trigger] entries@[x]).key >= bound by {
        if s < x {
            assert(entries@[s as int].key < entries@[x].key);
        }
    }
    s
}

fn hash_range(entries: &Vec<ProofEntry>, i: usize, j: usize, lo: u128, width: u128) -> (out: Vec<u8>)
    requires
        sorted(entries@),
        covers(entries@, i as int, j as int, lo as int, lo + width),
        1 <= width,
        lo + width <= KEY_SPACE,
    ensures
        out@ == node_hash(entries_map(entries@), lo as int, width as int),
    decreases width,
{
    let ghost m = entries_map(entries@);
    proof {
        lemma_covers_populated(entries@, i as int, j as int, lo as int, lo + width);
    }
    if i == j {
        proof {
            lemma_unpopulated(m, lo as int, width as int);
        }
        return empty_hash_bytes();
    }
    if width == 1 {
        proof {
            lemma_entry_in_map(entries@, i as int);
        }
        return leaf_hash_bytes(entries[i].key, &entries[i].value);
    }
    let half = width / 2;
    let mid = lo + half;
    let s = split_point(entries, i, j, mid);
    proof {
        assert(covers(entries@, i as int, s as int, lo as int, mid as int));
        assert(covers(entries@, s as int, j as int, mid as int, lo + width));
        lemma_covers_populated(entries@, i as int, s as int, lo as int, mid as int);
        lemma_covers_populated(entries@, s as int, j as int, mid as int, lo + width);
    }
    if i < s && s < j {
        let left = hash_range(entries, i, s, lo, half);
        let right = hash_range(entries, s, j, mid, width - half);
        branch_hash_bytes(&left, &right)
    } else if i < s {
        hash_range(entries, i, s, lo, half)
    } else {
        hash_range(entries, s, j, mid, width - half)
    }
}

/// A map from 64-bit keys to byte strings that can say its Merkle root.
#[derive(Debug)]
pub struct ProofMapIndex {
    entries: Vec<ProofEntry>,
}

impl View for ProofMapIndex {
    type V = Map<u64, Seq<u8>>;

    closed spec fn view(&self) -> Map<u64, Seq<u8>> {
        entries_map(self.entries@)
    }
}

impl ProofMapIndex {
    /// The entries are kept in ascending order of their keys.
    pub closed spec fn wf(&self) -> bool {
        sorted(self.entries@)
    }

    /// An empty map.
    pub fn new() -> (map: ProofMapIndex)
        ensures
            map.wf(),
            map@ == Map::<u64, Seq<u8>>::empty(),
    {
        let map = ProofMapIndex { entries: Vec::new() };
        assert(map@ =~= Map::<u64, Seq<u8>>::empty());
        map
    }

    /// The number of keys.
    pub fn len(&self) -> (n: usize)
        requires
            self.wf(),
        ensures
            n == self@.dom().len(),
            self@.dom().finite(),
    {
        proof {
            lemma_domain_size(self.entries@);
        }
        self.entries.len()
    }

    fn position(&self, key: u64) -> (p: usize)
        requires
            self.wf(),
        ensures
            p <= self.entries@.len(),
            forall|x: int| 0 <= x < p ==> (#[trigger] self.entries@[x]).key < key,
            forall|x: int| p <= x < self.entries@.len() ==> (#[trigger] self.entries@[x]).key >= key,
            self@.contains_key(key) <==> (p < self.entries@.len() && self.entries@[p as int].key
                == key),
    {
        let p = split_point(&self.entries, 0, self.entries.len(), key as u128);
        proof {
            if p < self.entries@.len() && self.entries@[p as int].key == key {
                lemma_entry_in_map(self.entries@, p as int);
            }
            if self@.contains_key(key) {
                let x = index_of(self.entries@, key);
                if x < p {
                    assert(self.entries@[x].key < key);
                }
                if x > p {
                    assert(self.entries@[p as int].key < self.entries@[x].key);
                }
            }
        }
        p
    }

    /// The value under `key`, if there is one.
    pub fn get(&self, key: u64) -> (r: Option<Vec<u8>>)
        requires
            self.wf(),
        ensures
            match r {
                Some(v) => self@.contains_key(key) && self@[key] == v@,
                None => !self@.contains_key(key),
            },
    {
        let p = self.position(key);
        if p < self.entries.len() && self.entries[p].key == key {
            proof {
                lemma_entry_in_map(self.entries@, p as int);
            }
            Some(copy_bytes(self.entries[p].value.as_slice()))
        } else {
            None
        }
    }

    /// Whether the map has `key`.
    pub fn contains(&self, key: u64) -> (r: bool)
        requires
            self.wf(),
        ensures
            r == self@.contains_key(key),
    {
        let p = self.position(key);
        p < self.entries.len() && self.entries[p].key == key
    }

    /// Inserts `value` under `key`, in place of any value that was there.
    pub fn put(&mut self, key: u64, value: Vec<u8>)
        requires
            old(self).wf(),
        ensures
            final(self).wf(),
            final(self)@ == old(self)@.insert(key, value@),
    {
        let p = self.position(key);
        let ghost before = self.entries@;
        let ghost v = value@;
        let entry = ProofEntry { key, value };
        if p < self.entries.len() && self.entries[p].key == key {
            self.entries.set(p, entry);
            proof {
                lemma_after_replace(before, self.entries@, p as int, key, v);
            }
        } else {
            self.entries.insert(p, entry);
            proof {
                lemma_after_insert(before, self.entries@, p as int, key, v);
            }
        }
    }

    /// Removes `key` and its value, if the map has it.
    pub fn remove(&mut self, key: u64)
        requires
            old(self).wf(),
        ensures
            final(self).wf(),
            final(self)@ == old(self)@.remove(key),
    {
        let p = self.position(key);
        let ghost before = self.entries@;
        if p < self.entries.len() && self.entries[p].key == key {
            self.entries.remove(p);
            proof {
                lemma_after_remove(before, self.entries@, p as int, key);
            }
        } else {
            assert(self@ =~= old(self)@.remove(key));
        }
    }

    /// The Merkle root of the map as it stands.
    pub fn root_hash(&self) -> (h: crate::crypto::Hash)
        requires
            self.wf(),
        ensures
            h@ == root_of(self@),
    {
        crate::crypto::Hash { bytes: hash_range(&self.entries, 0, self.entries.len(), 0, KEY_SPACE) }
    }
}

/// A proof about one key: the entry that the search for the key ends at,
/// if the map has any entry, and the hashes of the populated sibling ranges
/// on the way from that entry up to the root, lowest first. A level without
/// a populated sibling holds `None`.
#[derive(Clone, Debug, PartialEq, Eq)]
pub struct MapProof {
    pub candidate: Option<ProofEntry>,
    pub siblings: Vec<Option<Vec<u8>>>,
}

/// What a proof shows about a key.
#[derive(Clone, Debug, PartialEq, Eq)]
pub enum ProofVerdict {
    /// The map holds the key with this value.
    Included(Vec<u8>),
    /// The map does not hold the key.
    Excluded,
    /// The proof does not fit the root.
    Invalid,
}

/// The mathematical content of a `ProofVerdict`.
pub enum VerdictView {
    Included(Seq<u8>),
    Excluded,
    Invalid,
}

/// The view of a verdict.
pub open spec fn verdict_view(v: ProofVerdict) -> VerdictView {
    match v {
        ProofVerdict::Included(value) => VerdictView::Included(value@),
        ProofVerdict::Excluded => VerdictView::Excluded,
        ProofVerdict::Invalid => VerdictView::Invalid,
    }
}

/// The view of a proof's candidate.
pub open spec fn candidate_view(c: Option<ProofEntry>) -> Option<(u64, Seq<u8>)> {
    match c {
        Some(e) => Some((e.key, e.value@)),
        None => None,
    }
}

/// The views of a proof's sibling hashes.
pub open spec fn sibling_views(s: Seq<Option<Vec<u8>>>) -> Seq<Option<Seq<u8>>> {
    Seq::new(s.len(), |i: int| opt_view(s[i]))
}

/// The sibling at the highest level of a path; none if the path is empty.
pub open spec fn top_sibling(siblings: Seq<Option<Seq<u8>>>) -> Option<Seq<u8>> {
    if siblings.len() > 0 {
        siblings.last()
    } else {
        None
    }
}

/// The siblings below the highest level of a path.
pub open spec fn lower_siblings(siblings: Seq<Option<Seq<u8>>>) -> Seq<Option<Seq<u8>>> {
    if siblings.len() > 0 {
        siblings.drop_last()
    } else {
        siblings
    }
}

/// The hash of the range `[lo, lo + width)` as a proof gives it: the leaf
/// of `key`, joined on the way up with each sibling that the proof holds.
pub open spec fn path_hash(
    key: u64,
    value: Seq<u8>,
    siblings: Seq<Option<Seq<u8>>>,
    lo: int,
    width: int,
) -> Seq<u8>
    decreases width,
{
    if width <= 1 {
        leaf_hash(key, value)
    } else {
        let half = width / 2;
        let child = if key < lo + half {
            path_hash(key, value, lower_siblings(siblings), lo, half)
        } else {
            path_hash(key, value, lower_siblings(siblings), lo + half, width - half)
        };
        match top_sibling(siblings) {
            None => child,
            Some(h) => if key < lo + half {
                branch_hash(child, h)
            } else {
                branch_hash(h, child)
            },
        }
    }
}

/// Where the paths of `key` and of the candidate part, the proof holds no
/// sibling: the half that `key` would lie in is empty.
pub open spec fn parts_at_empty_half(
    key: u64,
    candidate: u64,
    siblings: Seq<Option<Seq<u8>>>,
    lo: int,
    width: int,
) -> bool
    decreases width,
{
    if width <= 1 {
        false
    } else {
        let half = width / 2;
        if (key < lo + half) != (candidate < lo + half) {
            top_sibling(siblings).is_none()
        } else if key < lo + half {
            parts_at_empty_half(key, candidate, lower_siblings(siblings), lo, half)
        } else {
            parts_at_empty_half(key, candidate, lower_siblings(siblings), lo + half, width - half)
        }
    }
}

/// What a proof shows about `key` against `root`. Without a candidate the
/// root must be that of the empty map. With one, the path from the
/// candidate must lead to the root; then the key is included if it is the
/// candidate's, and excluded if its path leaves the candidate's at an
/// empty half.
pub open spec fn verify_spec(
    root: Seq<u8>,
    key: u64,
    candidate: Option<(u64, Seq<u8>)>,
    siblings: Seq<Option<Seq<u8>>>,
) -> VerdictView {
    match candidate {
        None => if root == empty_hash() {
            VerdictView::Excluded
        } else {
            VerdictView::Invalid
        },
        Some(c) => if path_hash(c.0, c.1, siblings, 0, KEY_SPACE as int) != root {
            VerdictView::Invalid
        } else if c.0 == key {
            VerdictView::Included(c.1)
        } else if parts_at_empty_half(key, c.0, siblings, 0, KEY_SPACE as int) {
            VerdictView::Excluded
        } else {
            VerdictView::Invalid
        },
    }
}

fn path_hash_bytes(
    key: u64,
    value: &Vec<u8>,
    siblings: &Vec<Option<Vec<u8>>>,
    n: usize,
    lo: u128,
    width: u128,
) -> (out: Vec<u8>)
    requires
        n <= siblings@.len(),
        lo + width <= KEY_SPACE,
    ensures
        out@ == path_hash(
            key,
            value@,
            sibling_views(siblings@).take(n as int),
            lo as int,
            width as int,
        ),
    decreases width,
{
    if width <= 1 {
        return leaf_hash_bytes(key, value);
    }
    let half = width / 2;
    let mid = lo + half;
    let rest = if n > 0 {
        n - 1
    } else {
        0
    };
    proof {
        let all = sibling_views(siblings@);
        assert(lower_siblings(all.take(n as int)) =~= all.take(rest as int));
    }
    let child = if (key as u128) < mid {
        path_hash_bytes(key, value, siblings, rest, lo, half)
    } else {
        path_hash_bytes(key, value, siblings, rest, mid, width - half)
    };
    if n > 0 {
        match &siblings[n - 1] {
            None => child,
            Some(h) => if (key as u128) < mid {
                branch_hash_bytes(&child, h)
            } else {
                branch_hash_bytes(h, &child)
            },
        }
    } else {
        child
    }
}

fn parts_at_empty_half_check(
    key: u64,
    candidate: u64,
    siblings: &Vec<Option<Vec<u8>>>,
    n: usize,
    lo: u128,
    width: u128,
) -> (r: bool)
    requires
        n <= siblings@.len(),
        lo + width <= KEY_SPACE,
    ensures
        r == parts_at_empty_half(
            key,
            candidate,
            sibling_views(siblings@).take(n as int),
            lo as int,
            width as int,
        ),
    decreases width,
{
    if width <= 1 {
        return false;
    }
    let half = width / 2;
    let mid = lo + half;
    let rest = if n > 0 {
        n - 1
    } else {
        0
    };
    proof {
        let all = sibling_views(siblings@);
        assert(lower_siblings(all.take(n as int)) =~= all.take(rest as int));
    }
    if ((key as u128) < mid) != ((candidate as u128) < mid) {
        if n > 0 {
            siblings[n - 1].is_none()
        } else {
            true
        }
    } else if (key as u128) < mid {
        parts_at_empty_half_check(key, candidate, siblings, rest, lo, half)
    } else {
        parts_at_empty_half_check(key, candidate, siblings, rest, mid, width - half)
    }
}

/// Checks a proof about `key` against a trusted root.
pub fn verify(root: &crate::crypto::Hash, key: u64, proof: &MapProof) -> (r: ProofVerdict)
    ensures
        verdict_view(r) == verify_spec(
            root@,
            key,
            candidate_view(proof.candidate),
            sibling_views(proof.siblings@),
        ),
{
    let ghost all = sibling_views(proof.siblings@);
    assert(all.take(proof.siblings@.len() as int) =~= all);
    match &proof.candidate {
        None => {
            let empty = empty_hash_bytes();
            if bytes_eq(root.bytes.as_slice(), empty.as_slice()) {
                ProofVerdict::Excluded
            } else {
                ProofVerdict::Invalid
            }
        },
        Some(c) => {
            let n = proof.siblings.len();
            let h = path_hash_bytes(c.key, &c.value, &proof.siblings, n, 0, KEY_SPACE);
            if !bytes_eq(h.as_slice(), root.bytes.as_slice()) {
                ProofVerdict::Invalid
            } else if c.key == key {
                ProofVerdict::Included(copy_bytes(c.value.as_slice()))
            } else if parts_at_empty_half_check(key, c.key, &proof.siblings, n, 0, KEY_SPACE) {
                ProofVerdict::Excluded
            } else {
                ProofVerdict::Invalid
            }
        },
    }
}

fn build_path(entries: &Vec<ProofEntry>, i: usize, j: usize, lo: u128, width: u128, key: u64) -> (r:
    (usize, Vec<Option<Vec<u8>>>))
    requires
        sorted(entries@),
        covers(entries@, i as int, j as int, lo as int, lo + width),
        i < j,
        1 <= width,
        lo + width <= KEY_SPACE,
    ensures
        i <= r.0 < j,
        path_hash(
            entries@[r.0 as int].key,
            entries@[r.0 as int].value@,
            sibling_views(r.1@),
            lo as int,
            width as int,
        ) == node_hash(entries_map(entries@), lo as int, width as int),
        lo <= key < lo + width ==> (if entries_map(entries@).contains_key(key) {
            entries@[r.0 as int].key == key
        } else {
            parts_at_empty_half(
                key,
                entries@[r.0 as int].key,
                sibling_views(r.1@),
                lo as int,
                width as int,
            )
        }),
    decreases width,
{
    let ghost m = entries_map(entries@);
    if width == 1 {
        proof {
            lemma_entry_in_map(entries@, i as int);
        }
        return (i, Vec::new());
    }
    let half = width / 2;
    let mid = lo + half;
    let s = split_point(entries, i, j, mid);
    proof {
        assert(covers(entries@, i as int, s as int, lo as int, mid as int));
        assert(covers(entries@, s as int, j as int, mid as int, lo + width));
        lemma_covers_populated(entries@, i as int, s as int, lo as int, mid as int);
        lemma_covers_populated(entries@, s as int, j as int, mid as int, lo + width);
    }
    let in_range = lo <= key as u128 && (key as u128) < lo + width;
    let go_left = if i < s && s < j {
        !in_range || (key as u128) < mid
    } else {
        i < s
    };
    let (c, mut siblings) = if go_left {
        build_path(entries, i, s, lo, half, key)
    } else {
        build_path(entries, s, j, mid, width - half, key)
    };
    let ghost below = sibling_views(siblings@);
    let sibling = if i < s && s < j {
        if go_left {
            Some(hash_range(entries, s, j, mid, width - half))
        } else {
            Some(hash_range(entries, i, s, lo, half))
        }
    } else {
        None
    };
    siblings.push(sibling);
    proof {
        let above = sibling_views(siblings@);
        assert(lower_siblings(above) =~= below);
        assert(top_sibling(above) == opt_view(sibling));
        if in_range && m.contains_key(key) {
            if key < mid {
                assert(populated(m, lo as int, mid as int));
            } else {
                assert(populated(m, mid as int, lo + width));
            }
        }
    }
    (c, siblings)
}

impl ProofMapIndex {
    /// A proof about `key`: checked against the map's root it shows the
    /// key's value if the map has the key, and the key's absence if not.
    pub fn build_proof(&self, key: u64) -> (proof: MapProof)
        requires
            self.wf(),
        ensures
            verify_spec(
                root_of(self@),
                key,
                candidate_view(proof.candidate),
                sibling_views(proof.siblings@),
            ) == (if self@.contains_key(key) {
                VerdictView::Included(self@[key])
            } else {
                VerdictView::Excluded
            }),
    {
        if self.entries.len() == 0 {
            proof {
                lemma_covers_populated(self.entries@, 0, 0, 0, KEY_SPACE as int);
                lemma_unpopulated(self@, 0, KEY_SPACE as int);
            }
            return MapProof { candidate: None, siblings: Vec::new() };
        }
        let (c, siblings) = build_path(&self.entries, 0, self.entries.len(), 0, KEY_SPACE, key);
        proof {
            lemma_entry_in_map(self.entries@, c as int);
        }
        let candidate = ProofEntry {
            key: self.entries[c].key,
            value: copy_bytes(self.entries[c].value.as_slice()),
        };
        MapProof { candidate: Some(candidate), siblings }
    }
}

/// The keys and values of a sequence of entries.
pub open spec fn pairs(s: Seq<ProofEntry>) -> Seq<(u64, Seq<u8>)> {
    Seq::new(s.len(), |i: int| (s[i].key, s[i].value@))
}

/// Keys strictly ascend.
pub open spec fn ascending(p: Seq<(u64, Seq<u8>)>) -> bool {
    forall|i: int, j: int| 0 <= i < j < p.len() ==> p[i].0 < p[j].0
}

/// Sorted sequences with the same keys and values stand for the same map.
pub proof fn lemma_same_pairs_same_map(a: Seq<ProofEntry>, b: Seq<ProofEntry>)
    requires
        sorted(a),
        sorted(b),
        pairs(a) == pairs(b),
    ensures
        entries_map(a) == entries_map(b),
{
    assert(a.len() == pairs(a).len());
    assert(b.len() == pairs(b).len());
    assert forall|i: int| 0 <= i < a.len() implies a[i].key == b[i].key && a[i].value@
        == b[i].value@ by {
        assert(pairs(a)[i] == pairs(b)[i]);
    }
    assert forall|k: u64| entries_map(a).contains_key(k) <==> entries_map(b).contains_key(k) by {
        if has_key(a, k) {
            let i = index_of(a, k);
            assert(b[i].key == k);
        }
        if has_key(b, k) {
            let i = index_of(b, k);
            assert(a[i].key == k);
        }
    }
    assert forall|k: u64| entries_map(a).contains_key(k) implies entries_map(a)[k] == entries_map(
        b,
    )[k] by {
        let i = index_of(a, k);
        lemma_entry_in_map(a, i);
        assert(b[i].key == k);
        lemma_entry_in_map(b, i);
    }
    assert(entries_map(a) =~= entries_map(b));
}

impl ProofMapIndex {
    /// The keys and values of the map, in ascending order of the keys.
    pub closed spec fn entries_view(&self) -> Seq<(u64, Seq<u8>)> {
        pairs(self.entries@)
    }

    /// The map that holds `entries`, which ascend by key.
    pub fn from_sorted(entries: Vec<ProofEntry>) -> (map: ProofMapIndex)
        requires
            sorted(entries@),
        ensures
            map.wf(),
            map.entries_view() == pairs(entries@),
            map@ == entries_map(entries@),
    {
        ProofMapIndex { entries }
    }

    /// The entries of the map, in ascending order of the keys.
    pub fn entries(&self) -> (entries: &Vec<ProofEntry>)
        requires
            self.wf(),
        ensures
            sorted(entries@),
            pairs(entries@) == self.entries_view(),
            entries_map(entries@) == self@,
    {
        &self.entries
    }

    /// Maps with the same entries are the same map, so a map that was
    /// loaded with the entries of a saved one has its contents and its root.
    pub proof fn law_same_entries_same_map(&self, other: &ProofMapIndex)
        requires
            self.wf(),
            other.wf(),
            self.entries_view() == other.entries_view(),
        ensures
            self@ == other@,
    {
        lemma_same_pairs_same_map(self.entries@, other.entries@);
    }
}

/// A sorted sequence has as many entries as its map has keys.
pub proof fn lemma_domain_size(s: Seq<ProofEntry>)
    requires
        sorted(s),
    ensures
        entries_map(s).dom().finite(),
        entries_map(s).dom().len() == s.len(),
    decreases s.len(),
{
    if s.len() == 0 {
        assert(entries_map(s).dom() =~= Set::<u64>::empty());
    } else {
        let rest = s.drop_last();
        let k = s.last().key;
        lemma_domain_size(rest);
        assert forall|x: u64| entries_map(s).dom().contains(x) <==> entries_map(rest).dom().insert(
            k,
        ).contains(x) by {
            if has_key(s, x) {
                let i = index_of(s, x);
                if i < s.len() - 1 {
                    assert(rest[i].key == x);
                }
            }
            if has_key(rest, x) {
                let i = index_of(rest, x);
                assert(s[i].key == x);
            }
            if x == k {
                assert(s[s.len() - 1].key == x);
            }
        }
        assert(entries_map(s).dom() =~= entries_map(rest).dom().insert(k));
        if has_key(rest, k) {
            let i = index_of(rest, k);
            assert(s[i].key < s[s.len() - 1].key);
        }
    }
}

/// Replacing the value at the position of `key` updates the map at `key`.
pub proof fn lemma_after_replace(
    before: Seq<ProofEntry>,
    after: Seq<ProofEntry>,
    p: int,
    key: u64,
    value: Seq<u8>,
)
    requires
        sorted(before),
        0 <= p < before.len(),
        before[p].key == key,
        after.len() == before.len(),
        after[p].key == key,
        after[p].value@ == value,
        forall|x: int| 0 <= x < before.len() && x != p ==> after[x] == before[x],
    ensures
        sorted(after),
        entries_map(after) == entries_map(before).insert(key, value),
{
    assert forall|i: int, j: int| 0 <= i < j < after.len() implies after[i].key < after[j].key by {
        assert(before[i].key < before[j].key);
    }
    let target = entries_map(before).insert(key, value);
    assert forall|k: u64| entries_map(after).contains_key(k) <==> target.contains_key(k) by {
        if has_key(after, k) {
            let i = index_of(after, k);
            assert(before[i].key == k);
        }
        if has_key(before, k) {
            let i = index_of(before, k);
            assert(after[i].key == k);
        }
        if k == key {
            assert(after[p].key == k);
        }
    }
    assert forall|k: u64| entries_map(after).contains_key(k) implies entries_map(after)[k]
        == target[k] by {
        let i = index_of(after, k);
        lemma_entry_in_map(after, i);
        if i != p {
            assert(before[i].key == k);
            lemma_entry_in_map(before, i);
        }
    }
    assert(entries_map(after) =~= target);
}

/// Inserting a new key at its sorted position adds it to the map.
pub proof fn lemma_after_insert(
    before: Seq<ProofEntry>,
    after: Seq<ProofEntry>,
    p: int,
    key: u64,
    value: Seq<u8>,
)
    requires
        sorted(before),
        0 <= p <= before.len(),
        forall|x: int| 0 <= x < p ==> (#[trigger] before[x]).key < key,
        forall|x: int| p <= x < before.len() ==> (#[trigger] before[x]).key > key,
        after.len() == before.len() + 1,
        after[p].key == key,
        after[p].value@ == value,
        forall|x: int| 0 <= x < p ==> after[x] == before[x],
        forall|x: int| p < x < after.len() ==> after[x] == before[x - 1],
    ensures
        sorted(after),
        entries_map(after) == entries_map(before).insert(key, value),
{
    assert forall|i: int, j: int| 0 <= i < j < after.len() implies after[i].key < after[j].key by {
        if i < p && j > p {
            assert(before[i].key < key);
            assert(before[j - 1].key > key);
        } else if i < p && j < p {
            assert(before[i].key < before[j].key);
        } else if i > p {
            assert(before[i - 1].key < before[j - 1].key);
        } else if i == p {
            assert(before[j - 1].key > key);
        } else {
            assert(before[i].key < key);
        }
    }
    let target = entries_map(before).insert(key, value);
    assert forall|k: u64| entries_map(after).contains_key(k) <==> target.contains_key(k) by {
        if has_key(after, k) {
            let i = index_of(after, k);
            if i < p {
                assert(before[i].key == k);
            } else if i > p {
                assert(before[i - 1].key == k);
            }
        }
        if has_key(before, k) {
            let i = index_of(before, k);
            if i < p {
                assert(after[i].key == k);
            } else {
                assert(after[i + 1].key == k);
            }
        }
        if k == key {
            assert(after[p].key == k);
        }
    }
    assert forall|k: u64| entries_map(after).contains_key(k) implies entries_map(after)[k]
        == target[k] by {
        let i = index_of(after, k);
        lemma_entry_in_map(after, i);
        if i < p {
            assert(before[i].key == k);
            lemma_entry_in_map(before, i);
        } else if i > p {
            assert(before[i - 1].key == k);
            lemma_entry_in_map(before, i - 1);
        }
    }
    assert(entries_map(after) =~= target);
}

/// Removing the entry at the position of `key` removes the key from the map.
pub proof fn lemma_after_remove(before: Seq<ProofEntry>, after: Seq<ProofEntry>, p: int, key: u64)
    requires
        sorted(before),
        0 <= p < before.len(),
        before[p].key == key,
        after == before.remove(p),
    ensures
        sorted(after),
        entries_map(after) == entries_map(before).remove(key),
{
    assert forall|i: int, j: int| 0 <= i < j < after.len() implies after[i].key < after[j].key by {
        let bi = if i < p { i } else { i + 1 };
        let bj = if j < p { j } else { j + 1 };
        assert(before[bi].key < before[bj].key);
    }
    let target = entries_map(before).remove(key);
    assert forall|k: u64| entries_map(after).contains_key(k) <==> target.contains_key(k) by {
        if has_key(after, k) {
            let i = index_of(after, k);
            let bi = if i < p { i } else { i + 1 };
            assert(before[bi].key == k);
            if bi < p {
                assert(before[bi].key < before[p].key);
            } else {
                assert(before[p].key < before[bi].key);
            }
        }
        if has_key(before, k) && k != key {
            let i = index_of(before, k);
            if i < p {
                assert(after[i].key == k);
            } else {
                assert(after[i - 1].key == k);
            }
        }
    }
    assert forall|k: u64| entries_map(after).contains_key(k) implies entries_map(after)[k]
        == target[k] by {
        let i = index_of(after, k);
        lemma_entry_in_map(after, i);
        let bi = if i < p { i } else { i + 1 };
        assert(before[bi].key == k);
        lemma_entry_in_map(before, bi);
    }
    assert(entries_map(after) =~= target);
}

/// The root does not depend on the order in which three keys were inserted.
pub proof fn law_root_ignores_insertion_order(
    m: Map<u64, Seq<u8>>,
    a: u64,
    va: Seq<u8>,
    b: u64,
    vb: Seq<u8>,
    c: u64,
    vc: Seq<u8>,
)
    requires
        a != b,
        b != c,
        a != c,
    ensures
        root_of(m.insert(a, va).insert(b, vb).insert(c, vc)) == root_of(
            m.insert(c, vc).insert(b, vb).insert(a, va),
        ),
        root_of(m.insert(a, va).insert(b, vb).insert(c, vc)) == root_of(
            m.insert(b, vb).insert(a, va).insert(c, vc),
        ),
{
    assert(m.insert(a, va).insert(b, vb).insert(c, vc) =~= m.insert(c, vc).insert(b, vb).insert(
        a,
        va,
    ));
    assert(m.insert(a, va).insert(b, vb).insert(c, vc) =~= m.insert(b, vb).insert(a, va).insert(
        c,
        vc,
    ));
}

/// Removing a key that was just inserted into a map without it gives the
/// root back.
pub proof fn law_root_after_insert_and_remove(m: Map<u64, Seq<u8>>, k: u64, v: Seq<u8>)
    requires
        !m.contains_key(k),
    ensures
        root_of(m.insert(k, v).remove(k)) == root_of(m),
{
    assert(m.insert(k, v).remove(k) =~= m);
}

} // verus!
