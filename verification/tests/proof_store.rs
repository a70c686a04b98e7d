use exonum::proof_map::ProofMapIndex;
use exonum::proof_store::{load, save};
use exonum::storage::{Database, FatalStorageError};

#[test]
fn saved_map_is_loaded_after_merge() {
    let mut db = Database::new();
    let mut map = ProofMapIndex::new();
    map.put(9, vec![1, 2]);
    map.put(3, vec![]);
    map.put(u64::MAX, vec![7]);
    let mut fork = db.fork();
    assert!(save(&map, &mut fork, "wallets"));
    db.merge(fork.into_patch()).unwrap();

    let snapshot = db.snapshot();
    let loaded = load(&snapshot, "wallets").unwrap();
    assert_eq!(loaded.len(), 3);
    assert_eq!(loaded.get(3), Some(vec![]));
    assert_eq!(loaded.get(9), Some(vec![1, 2]));
    assert_eq!(loaded.get(u64::MAX), Some(vec![7]));
    assert_eq!(loaded.root_hash(), map.root_hash());
    assert_eq!(loaded.entries(), map.entries());

    assert_eq!(snapshot.get(b"wallets", b""), Some(vec![3, 0, 0, 0, 0, 0, 0, 0]));
    assert_eq!(
        snapshot.get(b"wallets", &[1, 0, 0, 0, 0, 0, 0, 0]),
        Some(vec![9, 0, 0, 0, 0, 0, 0, 0, 1, 2])
    );
}

#[test]
fn saving_a_smaller_map_replaces_the_larger_one() {
    let mut db = Database::new();
    let mut map = ProofMapIndex::new();
    map.put(1, vec![1]);
    map.put(2, vec![2]);
    let mut fork = db.fork();
    assert!(save(&map, &mut fork, "wallets"));
    db.merge(fork.into_patch()).unwrap();
    map.remove(1);
    let mut fork = db.fork();
    assert!(save(&map, &mut fork, "wallets"));
    db.merge(fork.into_patch()).unwrap();
    let loaded = load(&db.snapshot(), "wallets").unwrap();
    assert_eq!(loaded.len(), 1);
    assert_eq!(loaded.get(1), None);
    assert_eq!(loaded.get(2), Some(vec![2]));
}

#[test]
fn nothing_saved_loads_as_empty() {
    let db = Database::new();
    let loaded = load(&db.snapshot(), "wallets").unwrap();
    assert_eq!(loaded.len(), 0);
    assert_eq!(loaded.root_hash().to_bytes(), vec![0u8; 32]);
}

#[test]
fn malformed_stored_map_is_a_corruption_fault() {
    let db = Database::new();
    let mut fork = db.fork();
    fork.put(b"wallets", b"", vec![1]);
    assert_eq!(load(&fork, "wallets").err(), Some(FatalStorageError::Corrupted));

    let mut fork = db.fork();
    fork.put(b"wallets", b"", vec![2, 0, 0, 0, 0, 0, 0, 0]);
    fork.put(b"wallets", &[0u8; 8], vec![5, 0, 0, 0, 0, 0, 0, 0, 1]);
    assert_eq!(load(&fork, "wallets").err(), Some(FatalStorageError::Corrupted));

    fork.put(b"wallets", &[1, 0, 0, 0, 0, 0, 0, 0], vec![5, 0, 0]);
    assert_eq!(load(&fork, "wallets").err(), Some(FatalStorageError::Corrupted));

    fork.put(b"wallets", &[1, 0, 0, 0, 0, 0, 0, 0], vec![5, 0, 0, 0, 0, 0, 0, 0, 2]);
    assert_eq!(load(&fork, "wallets").err(), Some(FatalStorageError::Corrupted));

    fork.put(b"wallets", &[1, 0, 0, 0, 0, 0, 0, 0], vec![6, 0, 0, 0, 0, 0, 0, 0, 2]);
    let loaded = load(&fork, "wallets").unwrap();
    assert_eq!(loaded.get(5), Some(vec![1]));
    assert_eq!(loaded.get(6), Some(vec![2]));
}
