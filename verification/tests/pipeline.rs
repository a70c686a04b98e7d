use exonum::blockchain::{
    add_transaction_into_pool, transaction, Blockchain, ExecutionFault, RawTransaction, Service,
    TransactionStatus,
};
use exonum::crypto::gen_keypair_from_seed;
use exonum::list_index::ListIndex;
use exonum::messages::{sign_transaction, Signed};
use exonum::sandbox::MessageError;
use exonum::services::{
    service_good, service_panic, service_panic_storage_error, HookService, MyTransactions,
    TestService, Tx, DIVISION_BY_ZERO, TEST_SERVICE_ID,
};
use exonum::storage::{Database, FatalStorageError};

const IDX_NAME: &str = "idx_name";

fn create_blockchain() -> Blockchain<TestService> {
    Blockchain::new(Database::new(), vec![TestService])
}

fn create_blockchain_with_service(service: HookService) -> Blockchain<HookService> {
    Blockchain::new(Database::new(), vec![service])
}

fn signed(raw: RawTransaction) -> Signed {
    let (pk, sec_key) = gen_keypair_from_seed([7; 32]);
    sign_transaction(raw, pk, &sec_key)
}

fn fill_pool(blockchain: &mut Blockchain<TestService>, txs: &[&Signed]) {
    let patch = {
        let mut fork = blockchain.fork();
        for tx in txs {
            add_transaction_into_pool(&mut fork, tx);
        }
        fork.into_patch()
    };
    blockchain.merge(patch).unwrap();
}

#[test]
fn tests_handling_tx_panic() {
    let mut blockchain = create_blockchain();
    let tx_ok1 = signed(Tx::new(3).to_raw());
    let tx_ok2 = signed(Tx::new(4).to_raw());
    let tx_failed = signed(Tx::new(0).to_raw());
    let tx_storage_error = signed(Tx::new(42).to_raw());
    fill_pool(&mut blockchain, &[&tx_ok1, &tx_ok2, &tx_failed, &tx_storage_error]);

    let (header, patch) = blockchain
        .create_patch(0, 0, &vec![tx_ok1.hash(), tx_failed.hash(), tx_ok2.hash()])
        .unwrap();

    blockchain.merge(patch).unwrap();
    let snapshot = blockchain.snapshot();

    assert_eq!(transaction(&snapshot, &tx_ok1.hash()), Ok(Some(tx_ok1.clone())));
    assert_eq!(transaction(&snapshot, &tx_ok2.hash()), Ok(Some(tx_ok2.clone())));
    assert_eq!(transaction(&snapshot, &tx_failed.hash()), Ok(Some(tx_failed.clone())));

    let index = ListIndex::new(IDX_NAME);

    assert_eq!(index.len(&snapshot), Ok(4));
    assert_eq!(index.get(&snapshot, 0), Ok(Some(3)));
    assert_eq!(index.get(&snapshot, 1), Ok(Some(14)));
    assert_eq!(index.get(&snapshot, 2), Ok(Some(4)));
    assert_eq!(index.get(&snapshot, 3), Ok(Some(10)));

    assert_eq!(
        header.statuses,
        vec![
            TransactionStatus::Success,
            TransactionStatus::LogicError(DIVISION_BY_ZERO),
            TransactionStatus::Success,
        ]
    );
    assert_eq!(header.tx_hashes, vec![tx_ok1.hash(), tx_failed.hash(), tx_ok2.hash()]);
}

#[test]
#[should_panic]
fn tests_handling_tx_panic_storage_error() {
    let mut blockchain = create_blockchain();
    let tx_ok1 = signed(Tx::new(3).to_raw());
    let tx_ok2 = signed(Tx::new(4).to_raw());
    let tx_failed = signed(Tx::new(0).to_raw());
    let tx_storage_error = signed(Tx::new(42).to_raw());
    fill_pool(&mut blockchain, &[&tx_ok1, &tx_ok2, &tx_failed, &tx_storage_error]);
    blockchain
        .create_patch(0, 0, &vec![tx_ok1.hash(), tx_storage_error.hash(), tx_ok2.hash()])
        .unwrap();
}

#[test]
fn storage_fault_ends_the_block_and_leaves_nothing_behind() {
    let mut blockchain = create_blockchain();
    let tx_ok1 = signed(Tx::new(3).to_raw());
    let tx_ok2 = signed(Tx::new(4).to_raw());
    let tx_failed = signed(Tx::new(0).to_raw());
    let tx_storage_error = signed(Tx::new(42).to_raw());
    fill_pool(&mut blockchain, &[&tx_ok1, &tx_ok2, &tx_failed, &tx_storage_error]);
    let result = blockchain.create_patch(
        0,
        0,
        &vec![tx_ok1.hash(), tx_ok2.hash(), tx_failed.hash(), tx_storage_error.hash()],
    );
    assert_eq!(result.err(), Some(FatalStorageError::Reported));
    let snapshot = blockchain.snapshot();
    let index = ListIndex::new(IDX_NAME);
    assert_eq!(index.len(&snapshot), Ok(0));
    assert_eq!(index.get(&snapshot, 0), Ok(None));
}

#[test]
fn tests_service_execute() {
    let blockchain = create_blockchain_with_service(service_good());
    let mut db = Database::new();
    let (_, patch) = blockchain.create_patch(0, 1, &vec![]).unwrap();
    db.merge(patch).unwrap();
    let snapshot = db.snapshot();
    let index = ListIndex::new(IDX_NAME);
    assert_eq!(index.len(&snapshot), Ok(1));
    assert_eq!(index.get(&snapshot, 0), Ok(Some(1)));
}

#[test]
fn tests_service_execute_panic() {
    let blockchain = create_blockchain_with_service(service_panic());
    let mut db = Database::new();
    let (_, patch) = blockchain.create_patch(0, 1, &vec![]).unwrap();
    db.merge(patch).unwrap();
    let snapshot = db.snapshot();
    let index = ListIndex::new(IDX_NAME);
    assert_eq!(index.is_empty(&snapshot), Ok(true));
}

#[test]
#[should_panic]
fn tests_service_execute_panic_storage_error() {
    let blockchain = create_blockchain_with_service(service_panic_storage_error());
    let mut db = Database::new();
    let (_, patch) = blockchain.create_patch(0, 1, &vec![]).unwrap();
    db.merge(patch).unwrap();
    let snapshot = db.snapshot();
    let index = ListIndex::new(IDX_NAME);
    assert_eq!(index.len(&snapshot), Ok(1));
    assert_eq!(index.get(&snapshot, 0), Ok(Some(1)));
}

#[test]
fn hook_storage_fault_is_reported() {
    let blockchain = create_blockchain_with_service(service_panic_storage_error());
    let result = blockchain.create_patch(0, 1, &vec![]);
    assert_eq!(result.err(), Some(FatalStorageError::Reported));
}

#[test]
fn unknown_transaction_hash_is_fatal() {
    let blockchain = create_blockchain();
    let tx = signed(Tx::new(3).to_raw());
    let result = blockchain.create_patch(0, 0, &vec![tx.hash()]);
    assert_eq!(result.err(), Some(FatalStorageError::Corrupted));
}

#[test]
fn transaction_for_unknown_service_is_recorded_as_not_found() {
    let mut blockchain = create_blockchain();
    let tx = signed(RawTransaction { service_id: 7, message_id: 0, payload: vec![1, 2, 3] });
    fill_pool(&mut blockchain, &[&tx]);
    let (header, patch) = blockchain.create_patch(0, 0, &vec![tx.hash()]).unwrap();
    assert_eq!(header.statuses, vec![TransactionStatus::NotFound]);
    assert_eq!(patch.len(), 0);
}

#[test]
fn malformed_payload_is_rejected_before_execution() {
    let mut blockchain = create_blockchain();
    let tx =
        signed(RawTransaction { service_id: TEST_SERVICE_ID, message_id: 0, payload: vec![1, 2, 3] });
    fill_pool(&mut blockchain, &[&tx]);
    let (header, patch) = blockchain.create_patch(0, 0, &vec![tx.hash()]).unwrap();
    assert_eq!(header.statuses, vec![TransactionStatus::Rejected]);
    assert_eq!(patch.len(), 0);
}

#[test]
fn state_hash_is_the_same_for_the_same_block() {
    let mut first = create_blockchain();
    let mut second = create_blockchain();
    let a = signed(Tx::new(3).to_raw());
    let b = signed(Tx::new(4).to_raw());
    fill_pool(&mut first, &[&a, &b]);
    fill_pool(&mut second, &[&b, &a]);
    let (h1, _) = first.create_patch(0, 5, &vec![a.hash(), b.hash()]).unwrap();
    let (h2, _) = second.create_patch(1, 5, &vec![a.hash(), b.hash()]).unwrap();
    assert_eq!(h1.state_hash, h2.state_hash);
    assert_eq!(h1.height, 5);
    assert_eq!(h2.proposer, 1);
    let (h3, _) = first.create_patch(0, 5, &vec![b.hash(), a.hash()]).unwrap();
    assert_ne!(h1.state_hash, h3.state_hash);
    let (h4, _) = first.create_patch(0, 6, &vec![a.hash(), b.hash()]).unwrap();
    assert_ne!(h1.state_hash, h4.state_hash);
}

#[test]
fn raw_transaction_round_trip() {
    let tx = RawTransaction { service_id: 258, message_id: 3, payload: vec![9, 8, 7] };
    let bytes = tx.encode();
    assert_eq!(bytes, vec![2, 1, 3, 0, 9, 8, 7]);
    assert_eq!(RawTransaction::decode(&bytes), Some(tx));
    assert_eq!(RawTransaction::decode(&[1, 2, 3]), None);
    let empty = RawTransaction::decode(&[1, 0, 2, 0]).unwrap();
    assert_eq!(empty.service_id, 1);
    assert_eq!(empty.message_id, 2);
    assert!(empty.payload.is_empty());
}

#[test]
fn test_service_decodes_its_transaction() {
    let raw = Tx::new(1234).to_raw();
    assert_eq!(raw.payload, vec![0xd2, 0x04, 0, 0, 0, 0, 0, 0]);
    assert_eq!(TestService.tx_from_raw(&raw), Some(Tx::new(1234)));
    assert_eq!(Tx::new(1234).value(), 1234);
    let other = RawTransaction { service_id: TEST_SERVICE_ID, message_id: 1, payload: raw.payload };
    assert_eq!(TestService.tx_from_raw(&other), None);
}

#[test]
fn faults_of_the_sample_services() {
    let db = Database::new();
    let mut fork = db.fork();
    assert_eq!(service_panic().before_commit(&mut fork), Err(ExecutionFault::Defect));
    assert_eq!(
        service_panic_storage_error().before_commit(&mut fork),
        Err(ExecutionFault::Storage(FatalStorageError::Reported))
    );
    assert_eq!(service_good().before_commit(&mut fork), Ok(()));
    assert_eq!(
        service_good().execute(&Tx::new(1).to_raw(), &mut fork),
        Err(ExecutionFault::Rejected)
    );
    assert_eq!(service_good().service_id(), 1);
    assert_eq!(service_good().service_name(), "some_service");
    assert_eq!(TestService.service_id(), TEST_SERVICE_ID);
    assert_eq!(TestService.service_name(), "test service");
    assert!(TestService.state_hash(&fork).is_empty());

    assert_eq!(Tx::new(0).execute(&mut fork), Err(ExecutionFault::Logic(DIVISION_BY_ZERO)));
    assert_eq!(
        Tx::new(42).execute(&mut fork),
        Err(ExecutionFault::Storage(FatalStorageError::Reported))
    );
    assert_eq!(Tx::new(6).execute(&mut fork), Ok(()));
    let index = ListIndex::new(IDX_NAME);
    assert_eq!(index.len(&fork), Ok(4));
    assert_eq!(index.get(&fork, 0), Ok(Some(1)));
    assert_eq!(index.get(&fork, 1), Ok(Some(0)));
    assert_eq!(index.get(&fork, 2), Ok(Some(6)));
    assert_eq!(index.get(&fork, 3), Ok(Some(7)));
}

#[test]
fn pool_entry_that_does_not_decode_is_fatal() {
    let mut blockchain = create_blockchain();
    let tx = signed(Tx::new(3).to_raw());
    let mut fork = blockchain.fork();
    fork.put(b"transactions", &tx.hash().to_bytes(), vec![1, 2, 3]);
    blockchain.merge(fork.into_patch()).unwrap();
    assert_eq!(
        transaction(&blockchain.snapshot(), &tx.hash()),
        Err(FatalStorageError::Corrupted)
    );
    let result = blockchain.create_patch(0, 0, &vec![tx.hash()]);
    assert_eq!(result.err(), Some(FatalStorageError::Corrupted));
    assert_eq!(transaction(&blockchain.snapshot(), &signed(Tx::new(9).to_raw()).hash()), Ok(None));
}

fn round_trip(t: MyTransactions) {
    let (pk, sec_key) = gen_keypair_from_seed([3; 32]);
    let msg = sign_transaction(t.into_raw(), pk, &sec_key);
    let parsed = MyTransactions::tx_from_raw(&msg.raw).unwrap();
    assert_eq!(t, parsed);
}

#[test]
fn deserialize_from_raw() {
    let a = MyTransactions::A { a: 0 };
    let b = MyTransactions::B { b: 1, c: 2 };
    let c = MyTransactions::C { a: 0 };
    round_trip(a);
    round_trip(b);
    round_trip(c);
    assert_eq!(b.into_raw().payload, vec![1, 0, 0, 0, 2]);
    assert_eq!(b.into_raw().message_id, 1);
    assert_eq!(c.into_raw().message_id, 2);
}

#[test]
fn raw_transactions_that_are_no_message() {
    let unknown = RawTransaction { service_id: TEST_SERVICE_ID, message_id: 3, payload: vec![0; 4] };
    assert_eq!(MyTransactions::tx_from_raw(&unknown), Err(MessageError::UnknownTag(3)));
    let short = RawTransaction { service_id: TEST_SERVICE_ID, message_id: 1, payload: vec![0; 4] };
    assert_eq!(MyTransactions::tx_from_raw(&short), Err(MessageError::IncorrectPayloadSize(1)));
    let db = Database::new();
    let mut fork = db.fork();
    assert_eq!(MyTransactions::A { a: 7 }.execute(&mut fork), Ok(()));
    assert_eq!(fork.into_patch().len(), 0);
}

#[test]
fn failed_hook_leaves_another_database_as_it_was() {
    let blockchain = create_blockchain_with_service(service_panic());
    let index = ListIndex::new(IDX_NAME);
    let mut db = Database::new();
    let mut fork = db.fork();
    index.extend(&mut fork, &vec![5, 6, 7]).unwrap();
    db.merge(fork.into_patch()).unwrap();

    let (header, patch) = blockchain.create_patch(0, 1, &vec![]).unwrap();
    assert!(header.statuses.is_empty());
    assert_eq!(patch.len(), 0);
    db.merge(patch).unwrap();
    let snapshot = db.snapshot();
    assert_eq!(index.len(&snapshot), Ok(3));
    assert_eq!(index.get(&snapshot, 0), Ok(Some(5)));
    assert_eq!(index.get(&snapshot, 2), Ok(Some(7)));
}

#[test]
fn failed_hook_after_clear_shows_the_empty_list() {
    let blockchain = create_blockchain_with_service(service_panic());
    let index = ListIndex::new(IDX_NAME);
    let mut db = Database::new();
    let mut fork = db.fork();
    let values: Vec<u64> = (0..10000).collect();
    index.extend(&mut fork, &values).unwrap();
    db.merge(fork.into_patch()).unwrap();
    let mut fork = db.fork();
    index.clear(&mut fork).unwrap();
    db.merge(fork.into_patch()).unwrap();

    let (_, patch) = blockchain.create_patch(0, 1, &vec![]).unwrap();
    db.merge(patch).unwrap();
    let snapshot = db.snapshot();
    assert_eq!(index.is_empty(&snapshot), Ok(true));
    assert_eq!(index.len(&snapshot), Ok(0));
    for i in 0..10000 {
        assert_eq!(index.get(&snapshot, i), Ok(None));
    }
}

#[test]
fn patch_holds_the_writes_of_the_successful_steps_only() {
    let good = create_blockchain_with_service(service_good());
    let (_, patch) = good.create_patch(0, 1, &vec![]).unwrap();
    assert_eq!(patch.len(), 2);

    let mut blockchain = create_blockchain();
    let ok = signed(Tx::new(3).to_raw());
    let failed = signed(Tx::new(0).to_raw());
    fill_pool(&mut blockchain, &[&ok, &failed]);
    let (_, patch) = blockchain.create_patch(0, 0, &vec![failed.hash()]).unwrap();
    assert_eq!(patch.len(), 0);
    let (_, patch) = blockchain.create_patch(0, 0, &vec![failed.hash(), ok.hash()]).unwrap();
    assert_eq!(patch.len(), 4);
}

#[test]
fn state_hash_covers_the_pool() {
    let mut small = create_blockchain();
    let mut large = create_blockchain();
    let a = signed(Tx::new(3).to_raw());
    let b = signed(Tx::new(4).to_raw());
    fill_pool(&mut small, &[&a]);
    fill_pool(&mut large, &[&a, &b]);
    let (h1, _) = small.create_patch(0, 5, &vec![a.hash()]).unwrap();
    let (h2, _) = large.create_patch(0, 5, &vec![a.hash()]).unwrap();
    assert_ne!(h1.state_hash, h2.state_hash);

    fill_pool(&mut small, &[&b, &a]);
    let (h3, _) = small.create_patch(0, 5, &vec![a.hash()]).unwrap();
    assert_eq!(h3.state_hash, h2.state_hash);

    let snapshot = large.snapshot();
    let digest = snapshot.get(b"transactions", b"").unwrap();
    let expected: Vec<u8> =
        a.hash().to_bytes().iter().zip(b.hash().to_bytes()).map(|(x, y)| x ^ y).collect();
    assert_eq!(digest, expected);
}
