use exonum::blockchain::{add_transaction_into_pool, Blockchain, RawTransaction, Service, TransactionStatus};
use exonum::crypto::{gen_keypair_from_seed, PublicKey, SecretKey};
use exonum::messages::sign_transaction;
use exonum::sandbox::{
    MessageError, TimestampTx, TimestampingService, TimestampingTransactions,
    TimestampingTxGenerator, DATA_SIZE, TIMESTAMPING_SERVICE,
};
use exonum::storage::Database;

fn keypair() -> (PublicKey, SecretKey) {
    gen_keypair_from_seed([2; 32])
}

#[test]
fn timestamping_service_capabilities() {
    let service = TimestampingService::new();
    assert_eq!(service.service_name(), "sandbox_timestamping");
    assert_eq!(service.service_id(), 129);
    let db = Database::new();
    let fork = db.fork();
    let hashes = service.state_hash(&fork);
    assert_eq!(hashes.len(), 2);
    assert_eq!(hashes[0].to_bytes(), vec![127u8; 32]);
    assert_eq!(hashes[1].to_bytes(), vec![128u8; 32]);
}

#[test]
fn timestamp_from_raw() {
    let raw = RawTransaction { service_id: TIMESTAMPING_SERVICE, message_id: 0, payload: vec![1, 2] };
    let mut expected = TimestampTx::new();
    expected.set_data(vec![1, 2]);
    assert_eq!(
        TimestampingTransactions::tx_from_raw(&raw),
        Ok(TimestampingTransactions::TimestampTx(expected.clone()))
    );
    assert_eq!(TimestampingTransactions::TimestampTx(expected).into_raw(), raw);
    let unknown = RawTransaction { service_id: TIMESTAMPING_SERVICE, message_id: 5, payload: vec![] };
    assert_eq!(
        TimestampingTransactions::tx_from_raw(&unknown),
        Err(MessageError::UnknownTag(5))
    );
}

#[test]
fn generator_yields_timestamps_of_the_given_size() {
    let mut generator = TimestampingTxGenerator::with_keypair(DATA_SIZE, keypair());
    assert_eq!(generator.public_key(), &keypair().0);
    let first = generator.next().unwrap();
    let second = generator.next().unwrap();
    assert_eq!(first.author, keypair().0);
    assert_eq!(first.raw.service_id, TIMESTAMPING_SERVICE);
    assert_eq!(first.raw.message_id, 0);
    assert_eq!(first.raw.payload.len(), 64);
    assert_eq!(second.raw.payload.len(), 64);
    assert!(first.raw.payload.iter().any(|b| *b != 0));
    assert_ne!(first.raw.payload, second.raw.payload);
    assert!(first.verify());
    assert!(second.verify());
    assert_eq!(first, sign_transaction(first.raw.clone(), keypair().0, &keypair().1));

    let mut again = TimestampingTxGenerator::with_keypair(DATA_SIZE, keypair());
    assert_eq!(again.next(), Some(first));
    assert_eq!(again.next(), Some(second));

    let mut empty = TimestampingTxGenerator::with_keypair(0, keypair());
    assert!(empty.next().unwrap().raw.payload.is_empty());
}

#[test]
fn timestamps_execute_without_writes() {
    let mut blockchain = Blockchain::new(Database::new(), vec![TimestampingService::new()]);
    let mut generator = TimestampingTxGenerator::with_keypair(16, keypair());
    let tx = generator.next().unwrap();
    let unknown = sign_transaction(
        RawTransaction { service_id: TIMESTAMPING_SERVICE, message_id: 9, payload: vec![] },
        keypair().0,
        &keypair().1,
    );
    let mut fork = blockchain.fork();
    let h1 = add_transaction_into_pool(&mut fork, &tx);
    let h2 = add_transaction_into_pool(&mut fork, &unknown);
    assert_eq!(h1, tx.hash());
    assert_eq!(h1, tx.raw.hash());
    blockchain.merge(fork.into_patch()).unwrap();
    let (header, patch) = blockchain.create_patch(0, 1, &vec![h1, h2]).unwrap();
    assert_eq!(header.statuses, vec![TransactionStatus::Success, TransactionStatus::Rejected]);
    assert_eq!(patch.len(), 0);
    assert_eq!(header.state_hash.to_bytes().len(), 32);
}

#[test]
fn fresh_generators_have_fresh_authors() {
    let mut first = TimestampingTxGenerator::new(DATA_SIZE).unwrap();
    let second = TimestampingTxGenerator::new(DATA_SIZE).unwrap();
    assert_ne!(first.public_key(), second.public_key());
    let tx = first.next().unwrap();
    assert_eq!(&tx.author, first.public_key());
    assert_eq!(tx.raw.payload.len(), DATA_SIZE);
    assert!(tx.verify());
    let (public_key, secret_key) = exonum::crypto::gen_keypair().unwrap();
    assert_eq!(gen_keypair_from_seed(secret_key.bytes).0, public_key);
    assert_ne!(secret_key.bytes, [0u8; 32]);
}

#[test]
fn generated_data_do_not_depend_on_the_keys() {
    let mut first = TimestampingTxGenerator::with_keypair(24, gen_keypair_from_seed([2; 32]));
    let mut second = TimestampingTxGenerator::with_keypair(24, gen_keypair_from_seed([3; 32]));
    let mut fresh = TimestampingTxGenerator::new(24).unwrap();
    for _ in 0..5 {
        let a = first.next().unwrap();
        let b = second.next().unwrap();
        let c = fresh.next().unwrap();
        assert_eq!(a.raw.payload, b.raw.payload);
        assert_eq!(a.raw.payload, c.raw.payload);
        assert_ne!(a.author, b.author);
        assert_ne!(a.signature, b.signature);
    }
    let mut short = TimestampingTxGenerator::with_keypair(8, keypair());
    let mut long = TimestampingTxGenerator::with_keypair(16, keypair());
    let head = short.next().unwrap().raw.payload;
    assert_eq!(&long.next().unwrap().raw.payload[..8], &head[..]);
}
