//! A list of byte strings with a Merkle root.
//!
//! The list is the proof map whose keys are the positions `0..len`, so its
//! root is that of a dense binary tree over the items in their order, and a
//! proof about a position is a proof about that key.

use crate::proof_map::{
    candidate_view, root_of, sibling_views, verify_spec, MapProof, ProofMapIndex, VerdictView,
};
use vstd::prelude::*;

verus! {

/// The map from positions to items that a list stands for.
pub open spec fn positions(items: Seq<Seq<u8>>) -> Map<u64, Seq<u8>> {
    Map::new(|k: u64| k < items.len(), |k: u64| items[k as int])
}

/// The Merkle root of a list.
pub open spec fn list_root(items: Seq<Seq<u8>>) -> Seq<u8> {
    root_of(positions(items))
}

/// A list of byte strings that can say its Merkle root.
#[derive(Debug)]
pub struct ProofListIndex {
    map: ProofMapIndex,
    len: u64,
}

impl View for ProofListIndex {
    type V = Seq<Seq<u8>>;

    closed spec fn view(&self) -> Seq<Seq<u8>> {
        Seq::new(self.len as nat, |i: int| self.map@[i as u64])
    }
}

impl ProofListIndex {
    /// The underlying map holds exactly the positions below the length.
    pub closed spec fn wf(&self) -> bool {
        &&& self.map.wf()
        &&& forall|k: u64| self.map@.contains_key(k) <==> k < self.len
    }

    /// An empty list.
    pub fn new() -> (list: ProofListIndex)
        ensures
            list.wf(),
            list@ == Seq::<Seq<u8>>::empty(),
    {
        let list = ProofListIndex { map: ProofMapIndex::new(), len: 0 };
        assert(list@ =~= Seq::<Seq<u8>>::empty());
        list
    }

    /// The number of items.
    pub fn len(&self) -> (n: u64)
        requires
            self.wf(),
        ensures
            n == self@.len(),
    {
        self.len
    }

    /// The item at position `i`, or `None` at or beyond the length.
    pub fn get(&self, i: u64) -> (r: Option<Vec<u8>>)
        requires
            self.wf(),
        ensures
            match r {
                Some(v) => i < self@.len() && self@[i as int] == v@,
                None => i >= self@.len(),
            },
    {
        self.map.get(i)
    }

    /// Appends `item` and returns `true`; returns `false`, with no change,
    /// if every position is taken.
    pub fn push(&mut self, item: Vec<u8>) -> (pushed: bool)
        requires
            old(self).wf(),
        ensures
            final(self).wf(),
            pushed == (old(self)@.len() < u64::MAX),
            pushed ==> final(self)@ == old(self)@.push(item@),
            !pushed ==> final(self)@ == old(self)@,
    {
        if self.len == u64::MAX {
            return false;
        }
        self.map.put(self.len, item);
        self.len = self.len + 1;
        assert(self@ =~= old(self)@.push(item@));
        true
    }

    /// Appends as many of `items`, in order, as there are free positions,
    /// and returns how many that was.
    pub fn extend(&mut self, items: &Vec<Vec<u8>>) -> (n: usize)
        requires
            old(self).wf(),
        ensures
            final(self).wf(),
            n <= items@.len(),
            n == items@.len() || final(self)@.len() == u64::MAX,
            final(self)@ == old(self)@ + Seq::new(n as nat, |i: int| items@[i]@),
    {
        let mut n: usize = 0;
        assert(self@ =~= old(self)@ + Seq::new(0, |i: int| items@[i]@));
        while n < items.len()
            invariant
                self.wf(),
                n <= items@.len(),
                self@ == old(self)@ + Seq::new(n as nat, |i: int| items@[i]@),
            decreases items@.len() - n,
        {
            let item = crate::storage::copy_bytes(items[n].as_slice());
            if !self.push(item) {
                return n;
            }
            n += 1;
            assert(self@ =~= old(self)@ + Seq::new(n as nat, |i: int| items@[i]@));
        }
        n
    }

    /// The Merkle root of the list as it stands.
    pub fn root_hash(&self) -> (h: crate::crypto::Hash)
        requires
            self.wf(),
        ensures
            h@ == list_root(self@),
    {
        assert(self.map@ =~= positions(self@));
        self.map.root_hash()
    }

    /// A proof about position `i`: checked against the list's root it shows
    /// the item there, or that the list ends before `i`.
    pub fn build_proof(&self, i: u64) -> (proof: MapProof)
        requires
            self.wf(),
        ensures
            verify_spec(
                list_root(self@),
                i,
                candidate_view(proof.candidate),
                sibling_views(proof.siblings@),
            ) == (if i < self@.len() {
                VerdictView::Included(self@[i as int])
            } else {
                VerdictView::Excluded
            }),
    {
        assert(self.map@ =~= positions(self@));
        self.map.build_proof(i)
    }
}

} // verus!
