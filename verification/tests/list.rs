use exonum::list_index::ListIndex;
use exonum::storage::{Database, FatalStorageError};

#[test]
fn push_then_pop_restores_the_list() {
    let db = Database::new();
    let mut fork = db.fork();
    let list = ListIndex::new("numbers");
    assert_eq!(list.push(&mut fork, 7), Ok(()));
    assert_eq!(list.push(&mut fork, 8), Ok(()));
    assert_eq!(list.len(&fork), Ok(2));
    assert_eq!(list.last(&fork), Ok(Some(8)));
    assert_eq!(list.push(&mut fork, 9), Ok(()));
    assert_eq!(list.len(&fork), Ok(3));
    assert_eq!(list.pop(&mut fork), Ok(Some(9)));
    assert_eq!(list.len(&fork), Ok(2));
    assert_eq!(list.last(&fork), Ok(Some(8)));
    assert_eq!(list.get(&fork, 0), Ok(Some(7)));
    assert_eq!(list.get(&fork, 2), Ok(None));
}

#[test]
fn pop_on_empty_list() {
    let db = Database::new();
    let mut fork = db.fork();
    let list = ListIndex::new("numbers");
    assert_eq!(list.pop(&mut fork), Ok(None));
    assert_eq!(list.len(&fork), Ok(0));
    assert_eq!(list.is_empty(&fork), Ok(true));
    assert_eq!(list.last(&fork), Ok(None));
    assert_eq!(fork.into_patch().len(), 0);
}

#[test]
fn truncate_yields_the_smaller_length() {
    let db = Database::new();
    let mut fork = db.fork();
    let list = ListIndex::new("numbers");
    assert_eq!(list.extend(&mut fork, &vec![1, 2, 3, 4, 5]), Ok(()));
    assert_eq!(list.len(&fork), Ok(5));
    assert_eq!(list.truncate(&mut fork, 7), Ok(()));
    assert_eq!(list.len(&fork), Ok(5));
    assert_eq!(list.truncate(&mut fork, 3), Ok(()));
    assert_eq!(list.len(&fork), Ok(3));
    assert_eq!(list.get(&fork, 2), Ok(Some(3)));
    assert_eq!(list.get(&fork, 3), Ok(None));
    assert_eq!(list.push(&mut fork, 9), Ok(()));
    assert_eq!(list.get(&fork, 3), Ok(Some(9)));
    assert_eq!(list.get(&fork, 4), Ok(None));
    assert_eq!(list.truncate(&mut fork, 0), Ok(()));
    assert_eq!(list.is_empty(&fork), Ok(true));
}

#[test]
fn set_replaces_within_the_length() {
    let db = Database::new();
    let mut fork = db.fork();
    let list = ListIndex::new("numbers");
    list.extend(&mut fork, &vec![1, 2, 3]).unwrap();
    assert_eq!(list.set(&mut fork, 1, 20), Ok(true));
    assert_eq!(list.set(&mut fork, 3, 40), Ok(false));
    assert_eq!(list.get(&fork, 0), Ok(Some(1)));
    assert_eq!(list.get(&fork, 1), Ok(Some(20)));
    assert_eq!(list.get(&fork, 2), Ok(Some(3)));
    assert_eq!(list.len(&fork), Ok(3));
}

#[test]
fn clear_after_many_entries_shows_empty_after_merge() {
    let mut db = Database::new();
    let list = ListIndex::new("numbers");
    let mut fork = db.fork();
    let values: Vec<u64> = (0..500).collect();
    list.extend(&mut fork, &values).unwrap();
    db.merge(fork.into_patch()).unwrap();
    assert_eq!(list.len(&db.snapshot()), Ok(500));
    assert_eq!(list.get(&db.snapshot(), 499), Ok(Some(499)));

    let mut fork = db.fork();
    assert_eq!(list.clear(&mut fork), Ok(()));
    let patch = fork.into_patch();
    assert_eq!(patch.len(), 1);
    db.merge(patch).unwrap();
    let snapshot = db.snapshot();
    assert_eq!(list.len(&snapshot), Ok(0));
    assert_eq!(list.is_empty(&snapshot), Ok(true));
    assert_eq!(list.get(&snapshot, 0), Ok(None));

    let mut fork = db.fork();
    list.push(&mut fork, 11).unwrap();
    assert_eq!(list.len(&fork), Ok(1));
    assert_eq!(list.get(&fork, 0), Ok(Some(11)));
    assert_eq!(list.get(&fork, 1), Ok(None));
}

#[test]
fn list_round_trip_through_merge() {
    let mut db = Database::new();
    let list = ListIndex::new("numbers");
    let other = ListIndex::new("others");
    let mut fork = db.fork();
    list.push(&mut fork, 1234).unwrap();
    other.push(&mut fork, 99).unwrap();
    db.merge(fork.into_patch()).unwrap();
    let snapshot = db.snapshot();
    assert_eq!(list.get(&snapshot, 0), Ok(Some(1234)));
    assert_eq!(other.get(&snapshot, 0), Ok(Some(99)));
    assert_eq!(list.len(&snapshot), Ok(1));
    assert_eq!(
        snapshot.get(b"numbers", &[0u8; 16]),
        Some(vec![0xd2, 0x04, 0, 0, 0, 0, 0, 0])
    );
    assert_eq!(
        snapshot.get(b"numbers", b""),
        Some(vec![0, 0, 0, 0, 0, 0, 0, 0, 1, 0, 0, 0, 0, 0, 0, 0])
    );
}

#[test]
fn malformed_state_is_a_corruption_fault() {
    let db = Database::new();
    let list = ListIndex::new("numbers");
    let mut fork = db.fork();
    fork.put(b"numbers", b"", vec![1, 2, 3]);
    assert_eq!(list.len(&fork), Err(FatalStorageError::Corrupted));
    assert_eq!(list.get(&fork, 0), Err(FatalStorageError::Corrupted));
    assert_eq!(list.push(&mut fork, 1), Err(FatalStorageError::Corrupted));
    assert_eq!(list.pop(&mut fork), Err(FatalStorageError::Corrupted));
    assert_eq!(list.clear(&mut fork), Err(FatalStorageError::Corrupted));
    assert_eq!(list.truncate(&mut fork, 0), Err(FatalStorageError::Corrupted));
    assert_eq!(list.set(&mut fork, 0, 1), Err(FatalStorageError::Corrupted));
    assert_eq!(list.extend(&mut fork, &vec![1]), Err(FatalStorageError::Corrupted));
}

#[test]
fn missing_item_is_a_corruption_fault() {
    let db = Database::new();
    let list = ListIndex::new("numbers");
    let mut fork = db.fork();
    list.push(&mut fork, 5).unwrap();
    fork.remove(b"numbers", &[0u8; 16]);
    assert_eq!(list.len(&fork), Ok(1));
    assert_eq!(list.get(&fork, 0), Err(FatalStorageError::Corrupted));
    assert_eq!(list.pop(&mut fork), Err(FatalStorageError::Corrupted));
}

#[test]
fn full_list_and_last_generation_are_reported() {
    let db = Database::new();
    let list = ListIndex::new("numbers");
    let mut fork = db.fork();
    let mut meta = vec![0u8; 8];
    meta.extend_from_slice(&[255u8; 8]);
    fork.put(b"numbers", b"", meta);
    assert_eq!(list.len(&fork), Ok(u64::MAX));
    assert_eq!(list.push(&mut fork, 1), Err(FatalStorageError::Exhausted));
    assert_eq!(list.extend(&mut fork, &vec![1]), Err(FatalStorageError::Exhausted));
    let mut meta = vec![255u8; 8];
    meta.extend_from_slice(&[0u8; 8]);
    fork.put(b"numbers", b"", meta);
    assert_eq!(list.clear(&mut fork), Err(FatalStorageError::Exhausted));
}
