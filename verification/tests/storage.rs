use exonum::crypto::hash;
use exonum::storage::{bytes_eq, copy_bytes, Database};

#[test]
fn write_merge_and_reopen() {
    let mut db = Database::new();
    let mut fork = db.fork();
    fork.put(b"index", b"key", vec![1, 2, 3]);
    assert_eq!(fork.get(b"index", b"key"), Some(vec![1, 2, 3]));
    assert_eq!(db.snapshot().get(b"index", b"key"), None);
    let patch = fork.into_patch();
    assert_eq!(patch.len(), 1);
    assert_eq!(db.merge(patch), Ok(()));
    let snapshot = db.snapshot();
    assert_eq!(snapshot.get(b"index", b"key"), Some(vec![1, 2, 3]));
    assert!(snapshot.contains(b"index", b"key"));
    assert!(!snapshot.contains(b"index", b"other"));
    assert!(!snapshot.contains(b"other", b"key"));
}

#[test]
fn discarded_fork_changes_nothing() {
    let mut db = Database::new();
    let mut fork = db.fork();
    fork.put(b"a", b"k", vec![1]);
    db.merge(fork.into_patch()).unwrap();
    {
        let mut dropped = db.fork();
        dropped.put(b"a", b"k", vec![2]);
        dropped.remove(b"a", b"k");
        dropped.put(b"a", b"z", vec![3]);
    }
    let snapshot = db.snapshot();
    assert_eq!(snapshot.get(b"a", b"k"), Some(vec![1]));
    assert_eq!(snapshot.get(b"a", b"z"), None);
}

#[test]
fn snapshot_does_not_see_later_merges() {
    let mut db = Database::new();
    let before = db.snapshot();
    let mut fork = db.fork();
    fork.put(b"a", b"k", vec![1]);
    db.merge(fork.into_patch()).unwrap();
    assert_eq!(before.get(b"a", b"k"), None);
    assert_eq!(db.snapshot().get(b"a", b"k"), Some(vec![1]));
}

#[test]
fn fork_reads_its_buffer_first() {
    let mut db = Database::new();
    let mut fork = db.fork();
    fork.put(b"a", b"k", vec![1]);
    fork.put(b"a", b"gone", vec![5]);
    db.merge(fork.into_patch()).unwrap();
    let mut fork = db.fork();
    assert_eq!(fork.get(b"a", b"k"), Some(vec![1]));
    fork.put(b"a", b"k", vec![2]);
    fork.remove(b"a", b"gone");
    assert_eq!(fork.get(b"a", b"k"), Some(vec![2]));
    assert_eq!(fork.get(b"a", b"gone"), None);
    assert!(!fork.contains(b"a", b"gone"));
    db.merge(fork.into_patch()).unwrap();
    assert_eq!(db.snapshot().get(b"a", b"k"), Some(vec![2]));
    assert_eq!(db.snapshot().get(b"a", b"gone"), None);
}

#[test]
fn rollback_discards_later_writes_only() {
    let db = Database::new();
    let mut fork = db.fork();
    fork.put(b"a", b"1", vec![1]);
    let mark = fork.checkpoint();
    assert_eq!(mark, 1);
    fork.put(b"a", b"2", vec![2]);
    fork.put(b"a", b"1", vec![9]);
    fork.rollback(mark);
    assert_eq!(fork.get(b"a", b"1"), Some(vec![1]));
    assert_eq!(fork.get(b"a", b"2"), None);
    assert_eq!(fork.into_patch().len(), 1);
}

#[test]
fn names_do_not_collide() {
    let db = Database::new();
    let mut fork = db.fork();
    fork.put(b"ab", b"c", vec![1]);
    fork.put(b"a", b"bc", vec![2]);
    assert_eq!(fork.get(b"ab", b"c"), Some(vec![1]));
    assert_eq!(fork.get(b"a", b"bc"), Some(vec![2]));
}

#[test]
fn byte_helpers() {
    assert!(bytes_eq(&[1, 2, 3], &[1, 2, 3]));
    assert!(!bytes_eq(&[1, 2, 3], &[1, 2, 4]));
    assert!(!bytes_eq(&[1, 2, 3], &[1, 2]));
    assert!(bytes_eq(&[], &[]));
    assert_eq!(copy_bytes(&[4, 5, 6]), vec![4, 5, 6]);
}

#[test]
fn hash_is_sha256() {
    let expected: Vec<u8> = vec![
        0xba, 0x78, 0x16, 0xbf, 0x8f, 0x01, 0xcf, 0xea, 0x41, 0x41, 0x40, 0xde, 0x5d, 0xae, 0x22,
        0x23, 0xb0, 0x03, 0x61, 0xa3, 0x96, 0x17, 0x7a, 0x9c, 0xb4, 0x10, 0xff, 0x61, 0xf2, 0x00,
        0x15, 0xad,
    ];
    assert_eq!(hash(b"abc").to_bytes(), expected);
    assert_eq!(hash(b"abc"), hash(b"abc"));
    assert_ne!(hash(b"abc"), hash(b"abd"));
    assert_eq!(exonum::crypto::Hash::zero().to_bytes(), vec![0u8; 32]);
    assert_eq!(exonum::crypto::Hash::filled(127).to_bytes(), vec![127u8; 32]);
}
