use exonum::crypto::hash;
use exonum::proof_map::{verify, MapProof, ProofEntry, ProofMapIndex, ProofVerdict};

const A: u64 = 3;
const B: u64 = 0x8000_0000_0000_0000;
const C: u64 = u64::MAX;

fn map_of(entries: &[(u64, u8)]) -> ProofMapIndex {
    let mut map = ProofMapIndex::new();
    for (k, v) in entries {
        map.put(*k, vec![*v]);
    }
    map
}

fn leaf(key: u64, value: &[u8]) -> Vec<u8> {
    let mut input = vec![0u8];
    input.extend_from_slice(&key.to_le_bytes());
    input.extend_from_slice(value);
    hash(&input).to_bytes()
}

fn branch(left: &[u8], right: &[u8]) -> Vec<u8> {
    let mut input = vec![1u8];
    input.extend_from_slice(left);
    input.extend_from_slice(right);
    hash(&input).to_bytes()
}

#[test]
fn root_does_not_depend_on_insertion_order() {
    let abc = map_of(&[(A, 1), (B, 2), (C, 3)]);
    let cba = map_of(&[(C, 3), (B, 2), (A, 1)]);
    let bac = map_of(&[(B, 2), (A, 1), (C, 3)]);
    assert_eq!(abc.root_hash(), cba.root_hash());
    assert_eq!(abc.root_hash(), bac.root_hash());
    let other = map_of(&[(A, 1), (B, 2), (C, 4)]);
    assert_ne!(abc.root_hash(), other.root_hash());
}

#[test]
fn root_after_remove_equals_root_without_the_key() {
    let mut map = map_of(&[(A, 1), (B, 2), (C, 3), (5, 9), (4, 8)]);
    map.remove(5);
    map.remove(4);
    map.remove(77);
    assert_eq!(map.root_hash(), map_of(&[(A, 1), (B, 2), (C, 3)]).root_hash());
    assert_eq!(map.len(), 3);
    map.put(A, vec![7]);
    map.put(A, vec![1]);
    assert_eq!(map.root_hash(), map_of(&[(C, 3), (B, 2), (A, 1)]).root_hash());
}

#[test]
fn root_hash_formula() {
    assert_eq!(ProofMapIndex::new().root_hash().to_bytes(), vec![0u8; 32]);
    let one = map_of(&[(A, 1)]);
    assert_eq!(one.root_hash().to_bytes(), leaf(A, &[1]));
    let two = map_of(&[(B, 2), (A, 1)]);
    assert_eq!(two.root_hash().to_bytes(), branch(&leaf(A, &[1]), &leaf(B, &[2])));
    let three = map_of(&[(B, 2), (A, 1), (C, 3)]);
    assert_eq!(
        three.root_hash().to_bytes(),
        branch(&leaf(A, &[1]), &branch(&leaf(B, &[2]), &leaf(C, &[3])))
    );
    let near = map_of(&[(4, 1), (5, 2)]);
    assert_eq!(near.root_hash().to_bytes(), branch(&leaf(4, &[1]), &leaf(5, &[2])));
}

#[test]
fn get_put_remove() {
    let mut map = ProofMapIndex::new();
    assert_eq!(map.get(A), None);
    assert!(!map.contains(A));
    map.put(A, vec![1, 2]);
    map.put(B, vec![3]);
    assert_eq!(map.get(A), Some(vec![1, 2]));
    assert_eq!(map.get(B), Some(vec![3]));
    assert!(map.contains(B));
    map.put(A, vec![9]);
    assert_eq!(map.get(A), Some(vec![9]));
    assert_eq!(map.len(), 2);
    map.remove(A);
    assert_eq!(map.get(A), None);
    assert_eq!(map.len(), 1);
}

#[test]
fn proofs_of_present_keys_verify_to_their_values() {
    let keys: Vec<(u64, u8)> = vec![(0, 10), (1, 11), (A, 1), (4, 2), (5, 3), (B, 4), (B + 1, 5), (C, 6)];
    let map = map_of(&keys);
    let root = map.root_hash();
    for (k, v) in &keys {
        let proof = map.build_proof(*k);
        assert_eq!(verify(&root, *k, &proof), ProofVerdict::Included(vec![*v]));
    }
}

#[test]
fn proofs_of_absent_keys_verify_to_excluded() {
    let map = map_of(&[(0, 10), (A, 1), (4, 2), (B, 4), (C, 6)]);
    let root = map.root_hash();
    for k in [1u64, 2, 5, 6, 1000, B - 1, B + 1, C - 1] {
        let proof = map.build_proof(k);
        assert_eq!(verify(&root, k, &proof), ProofVerdict::Excluded);
    }
    let empty = ProofMapIndex::new();
    let proof = empty.build_proof(7);
    assert_eq!(proof, MapProof { candidate: None, siblings: vec![] });
    assert_eq!(verify(&empty.root_hash(), 7, &proof), ProofVerdict::Excluded);
}

#[test]
fn proofs_that_do_not_fit_are_invalid() {
    let map = map_of(&[(0, 10), (A, 1), (4, 2), (B, 4), (C, 6)]);
    let root = map.root_hash();
    let other_root = map_of(&[(0, 10)]).root_hash();
    let proof = map.build_proof(A);
    assert_eq!(verify(&other_root, A, &proof), ProofVerdict::Invalid);
    assert_eq!(verify(&root, 4, &proof), ProofVerdict::Invalid);

    let mut forged = proof.clone();
    forged.candidate = Some(ProofEntry { key: A, value: vec![2] });
    assert_eq!(verify(&root, A, &forged), ProofVerdict::Invalid);

    let none = MapProof { candidate: None, siblings: vec![] };
    assert_eq!(verify(&root, 9, &none), ProofVerdict::Invalid);

    let single = map_of(&[(A, 1)]);
    let bare = MapProof { candidate: Some(ProofEntry { key: A, value: vec![1] }), siblings: vec![] };
    assert_eq!(verify(&single.root_hash(), A, &bare), ProofVerdict::Included(vec![1]));
    assert_eq!(verify(&single.root_hash(), 4, &bare), ProofVerdict::Excluded);
}

#[test]
fn proof_holds_one_sibling_per_branch() {
    let map = map_of(&[(A, 1), (B, 2), (C, 3)]);
    let proof = map.build_proof(C);
    assert_eq!(proof.candidate, Some(ProofEntry { key: C, value: vec![3] }));
    assert_eq!(proof.siblings.len(), 64);
    let present: Vec<Vec<u8>> = proof.siblings.iter().flatten().cloned().collect();
    assert_eq!(present, vec![leaf(B, &[2]), leaf(A, &[1])]);
    assert_eq!(proof.siblings[62], Some(leaf(B, &[2])));
    assert_eq!(proof.siblings[63], Some(leaf(A, &[1])));
}
