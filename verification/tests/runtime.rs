use exonum::blockchain::{add_transaction_into_pool, Blockchain, RawTransaction, TransactionStatus};
use exonum::crypto::gen_keypair_from_seed;
use exonum::entry::Entry;
use exonum::messages::{sign_transaction, Signed};
use exonum::runtime::{
    CallInfo, ExecutionError, Forwarder, NestedCall, RuntimeService, RustRuntime,
    ServiceDispatcher, TestServiceImpl, MAX_CALL_DEPTH,
};
use exonum::storage::{Database, FatalStorageError};

#[test]
fn test_basic_rust_runtime() {
    let db = Database::new();
    let mut runtime = RustRuntime::new();
    assert!(runtime.add_service(2, TestServiceImpl));
    assert!(runtime.has_instance(2));

    let dispatch_info = CallInfo { instance_id: 2, method_id: 0 };
    let payload = vec![0u8];
    {
        let mut fork = db.fork();
        runtime.execute(&mut fork, dispatch_info, &payload).unwrap();

        let entry = Entry::new("method_a_entry");
        assert_eq!(entry.get(&fork), Ok(Some(1)));
        let entry = Entry::new("method_b_entry");
        assert_eq!(entry.get(&fork), Ok(Some(2)));
    }
}

#[test]
fn unresolved_calls_are_not_found() {
    let db = Database::new();
    let mut runtime = RustRuntime::new();
    assert!(runtime.add_service(2, TestServiceImpl));
    assert!(!runtime.add_service(2, TestServiceImpl));
    assert!(!runtime.has_instance(3));
    let mut fork = db.fork();
    assert_eq!(
        runtime.execute(&mut fork, CallInfo { instance_id: 3, method_id: 0 }, &[]),
        Err(ExecutionError::InstanceNotFound)
    );
    assert_eq!(
        runtime.execute(&mut fork, CallInfo { instance_id: 2, method_id: 9 }, &[]),
        Err(ExecutionError::MethodNotFound)
    );
    assert_eq!(fork.into_patch().len(), 0);
}

#[test]
fn nested_call_to_a_missing_instance_fails() {
    let db = Database::new();
    let mut runtime = RustRuntime::new();
    assert!(runtime.add_service(1, TestServiceImpl));
    let mut fork = db.fork();
    assert_eq!(
        runtime.execute(&mut fork, CallInfo { instance_id: 1, method_id: 0 }, &[]),
        Err(ExecutionError::InstanceNotFound)
    );
    assert_eq!(Entry::new("method_a_entry").get(&fork), Ok(Some(1)));
    assert_eq!(Entry::new("method_b_entry").get(&fork), Ok(None));
}

#[test]
fn methods_of_the_test_service() {
    let db = Database::new();
    let mut fork = db.fork();
    let service = TestServiceImpl;
    assert_eq!(
        service.method_a(&mut fork, &[]),
        Ok(Some(NestedCall { info: CallInfo { instance_id: 2, method_id: 1 }, payload: vec![0] }))
    );
    assert_eq!(service.method_b(&mut fork, &[]), Ok(None));
    assert_eq!(service.call(2, &[], &mut fork), Err(ExecutionError::MethodNotFound));
    assert_eq!(fork.into_patch().len(), 2);
    assert_eq!(MAX_CALL_DEPTH, 16);
}

#[test]
fn entry_set_get_remove() {
    let mut db = Database::new();
    let entry = Entry::new("answer");
    let mut fork = db.fork();
    assert_eq!(entry.get(&fork), Ok(None));
    assert!(!entry.is_set(&fork));
    entry.set(&mut fork, 42);
    assert!(entry.is_set(&fork));
    db.merge(fork.into_patch()).unwrap();
    assert_eq!(entry.get(&db.snapshot()), Ok(Some(42)));
    let mut fork = db.fork();
    entry.remove(&mut fork);
    assert_eq!(entry.get(&fork), Ok(None));
    fork.put(b"answer", b"", vec![1]);
    assert_eq!(entry.get(&fork), Err(FatalStorageError::Corrupted));
}

#[test]
fn endless_chain_of_calls_exceeds_the_depth() {
    let db = Database::new();
    let mut runtime = RustRuntime::new();
    assert!(runtime.add_service(1, Forwarder { target: CallInfo { instance_id: 2, method_id: 0 } }));
    assert!(runtime.add_service(2, Forwarder { target: CallInfo { instance_id: 1, method_id: 0 } }));
    let mut fork = db.fork();
    assert_eq!(
        runtime.execute(&mut fork, CallInfo { instance_id: 1, method_id: 0 }, &[1]),
        Err(ExecutionError::DepthExceeded)
    );
    assert_eq!(fork.into_patch().len(), 0);

    let mut short = RustRuntime::new();
    assert!(short.add_service(1, Forwarder { target: CallInfo { instance_id: 9, method_id: 0 } }));
    let mut fork = db.fork();
    assert_eq!(
        short.execute(&mut fork, CallInfo { instance_id: 1, method_id: 0 }, &[]),
        Err(ExecutionError::InstanceNotFound)
    );
}

fn call(service_id: u16, message_id: u16) -> Signed {
    let (pk, sk) = gen_keypair_from_seed([4; 32]);
    sign_transaction(RawTransaction { service_id, message_id, payload: vec![0] }, pk, &sk)
}

fn block_of<D: ServiceDispatcher>(
    service: RuntimeService<D>,
    tx: &Signed,
) -> (TransactionStatus, Database) {
    let mut blockchain = Blockchain::new(Database::new(), vec![service]);
    let mut fork = blockchain.fork();
    add_transaction_into_pool(&mut fork, tx);
    blockchain.merge(fork.into_patch()).unwrap();
    let (header, patch) = blockchain.create_patch(0, 1, &vec![tx.hash()]).unwrap();
    let mut db = Database::new();
    db.merge(patch).unwrap();
    (header.statuses[0], db)
}

#[test]
fn runtime_call_inside_a_block() {
    let mut runtime = RustRuntime::new();
    assert!(runtime.add_service(2, TestServiceImpl));
    let (status, db) = block_of(RuntimeService { id: 2, runtime }, &call(2, 0));
    assert_eq!(status, TransactionStatus::Success);
    assert_eq!(Entry::new("method_a_entry").get(&db.snapshot()), Ok(Some(1)));
    assert_eq!(Entry::new("method_b_entry").get(&db.snapshot()), Ok(Some(2)));
}

#[test]
fn failed_nested_call_fails_the_transaction_and_discards_its_writes() {
    let mut runtime = RustRuntime::new();
    assert!(runtime.add_service(1, TestServiceImpl));
    let (status, db) = block_of(RuntimeService { id: 1, runtime }, &call(1, 0));
    assert_eq!(status, TransactionStatus::NotFound);
    assert_eq!(Entry::new("method_a_entry").get(&db.snapshot()), Ok(None));
    assert_eq!(Entry::new("method_b_entry").get(&db.snapshot()), Ok(None));

    let mut runtime = RustRuntime::new();
    assert!(runtime.add_service(1, TestServiceImpl));
    let (status, _) = block_of(RuntimeService { id: 1, runtime }, &call(1, 7));
    assert_eq!(status, TransactionStatus::NotFound);

    let mut runtime = RustRuntime::new();
    assert!(runtime.add_service(3, TestServiceImpl));
    let (status, _) = block_of(RuntimeService { id: 1, runtime }, &call(1, 0));
    assert_eq!(status, TransactionStatus::NotFound);
}

#[test]
fn endless_chain_inside_a_block_is_recorded_by_name() {
    let mut runtime = RustRuntime::new();
    assert!(runtime.add_service(1, Forwarder { target: CallInfo { instance_id: 1, method_id: 0 } }));
    let (status, db) = block_of(RuntimeService { id: 1, runtime }, &call(1, 0));
    assert_eq!(status, TransactionStatus::DepthExceeded);
    assert_eq!(Entry::new("method_a_entry").get(&db.snapshot()), Ok(None));
}
