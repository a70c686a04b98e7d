//! Block execution: transactions and commit hooks applied to one fork under
//! a fault boundary.
//!
//! A failure inside one transaction, or inside one service's commit hook,
//! discards the writes of that step alone and is recorded; a storage fault
//! aborts the whole block.

use crate::crypto::hash;
use crate::messages::{decode_signed, encode_signed, Signed};
use crate::storage::{
    apply_log, copy_bytes, lemma_extends_refl, lookup, ChangeView, Database, FatalStorageError,
    Fork, Patch, Readable, Snapshot, StoreMap,
};
use vstd::bytes::*;
use vstd::prelude::*;
use vstd::slice::*;

verus! {

/// A transaction as it travels: the service it is for, the kind of message
/// and the message's bytes.
#[derive(Clone, Debug, PartialEq, Eq)]
pub struct RawTransaction {
    pub service_id: u16,
    pub message_id: u16,
    pub payload: Vec<u8>,
}

/// The mathematical content of a `RawTransaction`.
pub struct RawTransactionView {
    pub service_id: u16,
    pub message_id: u16,
    pub payload: Seq<u8>,
}

impl View for RawTransaction {
    type V = RawTransactionView;

    open spec fn view(&self) -> RawTransactionView {
        RawTransactionView {
            service_id: self.service_id,
            message_id: self.message_id,
            payload: self.payload@,
        }
    }
}

/// The stored form of a transaction: both ids, two bytes each and
/// little-endian, then the payload.
pub open spec fn encode_tx(tx: RawTransactionView) -> Seq<u8> {
    spec_u16_to_le_bytes(tx.service_id) + spec_u16_to_le_bytes(tx.message_id) + tx.payload
}

/// The transaction that stored bytes stand for, if they are long enough to
/// hold both ids.
pub open spec fn decode_tx(bytes: Seq<u8>) -> Option<RawTransactionView> {
    if bytes.len() < 4 {
        None
    } else {
        Some(
            RawTransactionView {
                service_id: spec_u16_from_le_bytes(bytes.subrange(0, 2)),
                message_id: spec_u16_from_le_bytes(bytes.subrange(2, 4)),
                payload: bytes.subrange(4, bytes.len() as int),
            },
        )
    }
}

/// Decoding the stored form of a transaction gives the transaction back.
pub proof fn law_tx_round_trip(tx: RawTransactionView)
    ensures
        decode_tx(encode_tx(tx)) == Some(tx),
{
    lemma_auto_spec_u16_to_from_le_bytes();
    let bytes = encode_tx(tx);
    assert(bytes.subrange(0, 2) =~= spec_u16_to_le_bytes(tx.service_id));
    assert(bytes.subrange(2, 4) =~= spec_u16_to_le_bytes(tx.message_id));
    assert(bytes.subrange(4, bytes.len() as int) =~= tx.payload);
}

impl RawTransaction {
    /// The stored form of the transaction.
    pub fn encode(&self) -> (out: Vec<u8>)
        ensures
            out@ == encode_tx(self@),
    {
        let mut out = u16_to_le_bytes(self.service_id);
        let mut message = u16_to_le_bytes(self.message_id);
        out.append(&mut message);
        let mut payload = copy_bytes(self.payload.as_slice());
        out.append(&mut payload);
        out
    }

    /// Reads a transaction from its stored form; `None` exactly when the
    /// bytes are too short to hold both ids.
    pub fn decode(bytes: &[u8]) -> (r: Option<RawTransaction>)
        ensures
            match decode_tx(bytes@) {
                Some(tx) => r.is_some() && r.unwrap()@ == tx,
                None => r.is_none(),
            },
    {
        if bytes.len() < 4 {
            return None;
        }
        let service_id = u16_from_le_bytes(slice_subrange(bytes, 0, 2));
        let message_id = u16_from_le_bytes(slice_subrange(bytes, 2, 4));
        let payload = copy_bytes(slice_subrange(bytes, 4, bytes.len()));
        Some(RawTransaction { service_id, message_id, payload })
    }

    /// The hash that identifies the transaction: the digest of its stored form.
    pub fn hash(&self) -> (h: crate::crypto::Hash)
        ensures
            h@ == crate::crypto::sha256(encode_tx(self@)),
            h@.len() == crate::crypto::HASH_SIZE,
    {
        let bytes = self.encode();
        hash(bytes.as_slice())
    }
}

/// Why a transaction or a commit hook did not succeed.
#[derive(Clone, Copy, Debug, PartialEq, Eq, Structural)]
pub enum ExecutionFault {
    /// The payload does not decode to a message of the service.
    Rejected,
    /// The service declared a business-rule rejection, with its code.
    Logic(u8),
    /// The service's code hit a fault that it did not declare.
    Defect,
    /// The call names an instance or a method that does not exist.
    NotFound,
    /// The call led to a chain of calls longer than the runtime allows.
    DepthExceeded,
    /// The storage layer failed; this is never recovered from.
    Storage(FatalStorageError),
}

/// What became of one transaction of a block.
#[derive(Clone, Copy, Debug, PartialEq, Eq, Structural)]
pub enum TransactionStatus {
    /// Its writes are part of the block.
    Success,
    /// Its payload did not decode; nothing was executed.
    Rejected,
    /// It was rejected by the service's rules; its writes were discarded.
    LogicError(u8),
    /// The service's code failed; its writes were discarded.
    Defect,
    /// No registered service, instance or method has the id that it names.
    NotFound,
    /// It led to a chain of calls longer than the runtime allows; its writes
    /// were discarded.
    DepthExceeded,
}

/// The status recorded for a step that failed without a storage fault.
pub open spec fn status_of(fault: ExecutionFault) -> TransactionStatus {
    match fault {
        ExecutionFault::Rejected => TransactionStatus::Rejected,
        ExecutionFault::Logic(code) => TransactionStatus::LogicError(code),
        ExecutionFault::NotFound => TransactionStatus::NotFound,
        ExecutionFault::DepthExceeded => TransactionStatus::DepthExceeded,
        _ => TransactionStatus::Defect,
    }
}

/// The capabilities that a service offers to the block pipeline.
pub trait Service {
    /// The id by which transactions name the service.
    spec fn id(&self) -> u16;

    /// The service's name.
    spec fn name(&self) -> Seq<char>;

    /// The root hashes that the service declares over the store's contents.
    spec fn hashes(&self, m: StoreMap) -> Seq<Seq<u8>>;

    /// Result and store contents after the service executes `tx`.
    spec fn execute_spec(&self, tx: RawTransactionView, m: StoreMap) -> (
        Result<(), ExecutionFault>,
        StoreMap,
    );

    /// The writes that the service buffers while it executes `tx`, in order.
    spec fn execute_writes(&self, tx: RawTransactionView, m: StoreMap) -> Seq<ChangeView>;

    /// Result and store contents after the service's commit hook.
    spec fn before_commit_spec(&self, m: StoreMap) -> (Result<(), ExecutionFault>, StoreMap);

    /// The writes that the service's commit hook buffers, in order.
    spec fn before_commit_writes(&self, m: StoreMap) -> Seq<ChangeView>;

    /// The id by which transactions name the service.
    fn service_id(&self) -> (r: u16)
        ensures
            r == self.id(),
    ;

    /// The service's name.
    fn service_name(&self) -> (r: String)
        ensures
            r@ == self.name(),
    ;

    /// The root hashes that the service declares over what the fork shows.
    fn state_hash(&self, fork: &Fork) -> (r: Vec<crate::crypto::Hash>)
        ensures
            hash_views(r@) == self.hashes(fork@),
    ;

    /// Decodes `tx` and executes it against the fork. Adds its writes to
    /// the fork's buffered writes and changes nothing else.
    fn execute(&self, tx: &RawTransaction, fork: &mut Fork) -> (r: Result<(), ExecutionFault>)
        ensures
            final(fork).extends(*old(fork)),
            final(fork).adds(*old(fork), self.execute_writes(tx@, old(fork)@)),
            (r, final(fork)@) == self.execute_spec(tx@, old(fork)@),
    ;

    /// Runs once per block after its transactions. Adds its writes to the
    /// fork's buffered writes and changes nothing else.
    fn before_commit(&self, fork: &mut Fork) -> (r: Result<(), ExecutionFault>)
        ensures
            final(fork).extends(*old(fork)),
            final(fork).adds(*old(fork), self.before_commit_writes(old(fork)@)),
            (r, final(fork)@) == self.before_commit_spec(old(fork)@),
    ;
}

/// The byte strings of a sequence of hashes.
pub open spec fn hash_views(hashes: Seq<crate::crypto::Hash>) -> Seq<Seq<u8>> {
    Seq::new(hashes.len(), |i: int| hashes[i]@)
}

/// All byte strings of `parts`, one after the other.
pub open spec fn flatten(parts: Seq<Seq<u8>>) -> Seq<u8>
    decreases parts.len(),
{
    if parts.len() == 0 {
        Seq::empty()
    } else {
        flatten(parts.drop_last()) + parts.last()
    }
}

/// The name of the index that holds the pool of known transactions.
pub open spec fn pool_name() -> Seq<u8> {
    seq![116u8, 114u8, 97u8, 110u8, 115u8, 97u8, 99u8, 116u8, 105u8, 111u8, 110u8, 115u8]
}

fn pool_name_bytes() -> (name: Vec<u8>)
    ensures
        name@ == pool_name(),
{
    let name: Vec<u8> = vec![
        116u8, 114u8, 97u8, 110u8, 115u8, 97u8, 99u8, 116u8, 105u8, 111u8, 110u8, 115u8,
    ];
    assert(name@ =~= pool_name());
    name
}

/// The first position at or after `start` of a service with id `id`.
pub open spec fn lookup_service<S: Service>(services: Seq<S>, id: u16, start: int) -> Option<int>
    decreases services.len() - start,
{
    if start < 0 || start >= services.len() {
        None
    } else if services[start].id() == id {
        Some(start)
    } else {
        lookup_service(services, id, start + 1)
    }
}

/// One transaction of a block: the store's contents and the recorded status
/// after the signed transaction that the pool holds under `tx_hash` is
/// applied to contents `m`, or the storage fault that ends the block.
pub open spec fn tx_step<S: Service>(services: Seq<S>, m: StoreMap, tx_hash: Seq<u8>) -> Result<
    (StoreMap, TransactionStatus),
    FatalStorageError,
> {
    match lookup(m, (pool_name(), tx_hash)) {
        None => Err(FatalStorageError::Corrupted),
        Some(bytes) => match decode_signed(bytes) {
            None => Err(FatalStorageError::Corrupted),
            Some(tx) => match lookup_service(services, tx.raw.service_id, 0) {
                None => Ok((m, TransactionStatus::NotFound)),
                Some(i) => match services[i].execute_spec(tx.raw, m).0 {
                    Ok(_) => Ok(
                        (services[i].execute_spec(tx.raw, m).1, TransactionStatus::Success),
                    ),
                    Err(ExecutionFault::Storage(e)) => Err(e),
                    Err(fault) => Ok((m, status_of(fault))),
                },
            },
        },
    }
}

/// The writes that one transaction of a block leaves in the block's patch:
/// those of its execution if it succeeds, none otherwise.
pub open spec fn tx_writes<S: Service>(services: Seq<S>, m: StoreMap, tx_hash: Seq<u8>) -> Seq<
    ChangeView,
> {
    match lookup(m, (pool_name(), tx_hash)) {
        None => Seq::empty(),
        Some(bytes) => match decode_signed(bytes) {
            None => Seq::empty(),
            Some(tx) => match lookup_service(services, tx.raw.service_id, 0) {
                None => Seq::empty(),
                Some(i) => if services[i].execute_spec(tx.raw, m).0 is Ok {
                    services[i].execute_writes(tx.raw, m)
                } else {
                    Seq::empty()
                },
            },
        },
    }
}

/// The transactions of a block, applied in order.
pub open spec fn run_transactions<S: Service>(
    services: Seq<S>,
    m: StoreMap,
    tx_hashes: Seq<Seq<u8>>,
) -> Result<(StoreMap, Seq<TransactionStatus>), FatalStorageError>
    decreases tx_hashes.len(),
{
    if tx_hashes.len() == 0 {
        Ok((m, Seq::empty()))
    } else {
        match run_transactions(services, m, tx_hashes.drop_last()) {
            Err(e) => Err(e),
            Ok(done) => match tx_step(services, done.0, tx_hashes.last()) {
                Err(e) => Err(e),
                Ok(step) => Ok((step.0, done.1.push(step.1))),
            },
        }
    }
}

/// The writes that the transactions of a block leave in its patch: those
/// of every transaction that succeeds, in the order of the transactions.
pub open spec fn transactions_log<S: Service>(
    services: Seq<S>,
    m: StoreMap,
    tx_hashes: Seq<Seq<u8>>,
) -> Seq<ChangeView>
    decreases tx_hashes.len(),
{
    if tx_hashes.len() == 0 {
        Seq::empty()
    } else {
        match run_transactions(services, m, tx_hashes.drop_last()) {
            Err(_) => transactions_log(services, m, tx_hashes.drop_last()),
            Ok(done) => transactions_log(services, m, tx_hashes.drop_last()) + tx_writes(
                services,
                done.0,
                tx_hashes.last(),
            ),
        }
    }
}

/// The writes that one service's commit hook leaves in the block's patch:
/// those of the hook if it succeeds, none otherwise.
pub open spec fn hook_writes<S: Service>(service: S, m: StoreMap) -> Seq<ChangeView> {
    if service.before_commit_spec(m).0 is Ok {
        service.before_commit_writes(m)
    } else {
        Seq::empty()
    }
}

/// One service's commit hook: its writes if it succeeds, none if it fails
/// without a storage fault.
pub open spec fn hook_step<S: Service>(service: S, m: StoreMap) -> Result<
    StoreMap,
    FatalStorageError,
> {
    match service.before_commit_spec(m).0 {
        Ok(_) => Ok(service.before_commit_spec(m).1),
        Err(ExecutionFault::Storage(e)) => Err(e),
        Err(_) => Ok(m),
    }
}

/// The commit hooks of the first `n` services, in registration order.
pub open spec fn run_hooks<S: Service>(services: Seq<S>, m: StoreMap, n: int) -> Result<
    StoreMap,
    FatalStorageError,
>
    decreases n,
{
    if n <= 0 {
        Ok(m)
    } else {
        match run_hooks(services, m, n - 1) {
            Err(e) => Err(e),
            Ok(done) => hook_step(services[n - 1], done),
        }
    }
}

/// The writes that the commit hooks of the first `n` services leave in the
/// block's patch.
pub open spec fn hooks_log<S: Service>(services: Seq<S>, m: StoreMap, n: int) -> Seq<ChangeView>
    decreases n,
{
    if n <= 0 {
        Seq::empty()
    } else {
        match run_hooks(services, m, n - 1) {
            Err(_) => hooks_log(services, m, n - 1),
            Ok(done) => hooks_log(services, m, n - 1) + hook_writes(services[n - 1], done),
        }
    }
}

/// The patch of a whole block over contents `m`: the writes of every
/// transaction that succeeds, then those of every commit hook that
/// succeeds, and nothing else.
pub open spec fn block_log<S: Service>(services: Seq<S>, m: StoreMap, tx_hashes: Seq<Seq<u8>>)
    -> Seq<ChangeView> {
    match run_transactions(services, m, tx_hashes) {
        Err(_) => Seq::empty(),
        Ok(done) => transactions_log(services, m, tx_hashes) + hooks_log(
            services,
            done.0,
            services.len() as int,
        ),
    }
}

/// The declared hashes of the first `n` services, one after the other.
pub open spec fn service_hashes<S: Service>(services: Seq<S>, m: StoreMap, n: int) -> Seq<u8>
    decreases n,
{
    if n <= 0 {
        Seq::empty()
    } else {
        service_hashes(services, m, n - 1) + flatten(services[n - 1].hashes(m))
    }
}

/// The digest of the pool that the store keeps beside the pool's
/// transactions, under the empty key; empty while the pool is.
pub open spec fn pool_digest(m: StoreMap) -> Seq<u8> {
    match lookup(m, (pool_name(), Seq::<u8>::empty())) {
        Some(digest) => digest,
        None => Seq::empty(),
    }
}

/// The digest of a pool after the transaction with hash `h` joins it: the
/// two combined byte by byte with exclusive or, so that the order in which
/// transactions join does not show. A digest that is too short counts as
/// continued with zeros.
pub open spec fn mix(digest: Seq<u8>, h: Seq<u8>) -> Seq<u8> {
    Seq::new(
        h.len(),
        |i: int|
            (if i < digest.len() {
                digest[i]
            } else {
                0u8
            }) ^ h[i],
    )
}

/// The digest of a pool does not depend on the order in which two
/// transactions join it.
pub proof fn law_pool_digest_ignores_order(digest: Seq<u8>, a: Seq<u8>, b: Seq<u8>)
    requires
        a.len() == b.len(),
    ensures
        mix(mix(digest, a), b) == mix(mix(digest, b), a),
{
    assert forall|i: int| 0 <= i < a.len() implies mix(mix(digest, a), b)[i] == mix(
        mix(digest, b),
        a,
    )[i] by {
        let d: u8 = if i < digest.len() {
            digest[i]
        } else {
            0u8
        };
        let x: u8 = a[i];
        let y: u8 = b[i];
        assert((d ^ x) ^ y == (d ^ y) ^ x) by (bit_vector);
    }
    assert(mix(mix(digest, a), b) =~= mix(mix(digest, b), a));
}

/// The store after a signed transaction with hash `h` joins the pool: the
/// transaction is stored under `h`, and the digest takes `h` in unless the
/// pool held a transaction under `h` already.
pub open spec fn pool_insert(m: StoreMap, h: Seq<u8>, stored: Seq<u8>) -> StoreMap {
    if m.contains_key((pool_name(), h)) {
        m.insert((pool_name(), h), stored)
    } else {
        m.insert((pool_name(), h), stored).insert(
            (pool_name(), Seq::<u8>::empty()),
            mix(pool_digest(m), h),
        )
    }
}

/// The writes with which a signed transaction with hash `h` joins the pool.
pub open spec fn pool_insert_log(m: StoreMap, h: Seq<u8>, stored: Seq<u8>) -> Seq<ChangeView> {
    if m.contains_key((pool_name(), h)) {
        crate::storage::put_write(pool_name(), h, stored)
    } else {
        crate::storage::put_write(pool_name(), h, stored) + crate::storage::put_write(
            pool_name(),
            Seq::<u8>::empty(),
            mix(pool_digest(m), h),
        )
    }
}

/// What is hashed into a block's state hash: the height, the block's
/// transaction hashes in order, the digest of the pool, then every
/// service's declared hashes in registration order.
pub open spec fn state_hash_input<S: Service>(
    services: Seq<S>,
    m: StoreMap,
    height: u64,
    tx_hashes: Seq<Seq<u8>>,
) -> Seq<u8> {
    spec_u64_to_le_bytes(height) + flatten(tx_hashes) + pool_digest(m) + service_hashes(
        services,
        m,
        services.len() as int,
    )
}

/// A whole block over contents `m`: the contents and the statuses after all
/// transactions and all commit hooks, or the storage fault that ended it.
pub open spec fn run_block<S: Service>(services: Seq<S>, m: StoreMap, tx_hashes: Seq<Seq<u8>>)
    -> Result<(StoreMap, Seq<TransactionStatus>), FatalStorageError> {
    match run_transactions(services, m, tx_hashes) {
        Err(e) => Err(e),
        Ok(done) => match run_hooks(services, done.0, services.len() as int) {
            Err(e) => Err(e),
            Ok(after) => Ok((after, done.1)),
        },
    }
}

/// The record of one block: who proposed it at which height, its
/// transactions in order, the state hash that results, and what became of
/// each transaction.
#[derive(Debug)]
pub struct BlockHeader {
    pub proposer: u16,
    pub height: u64,
    pub tx_hashes: Vec<crate::crypto::Hash>,
    pub state_hash: crate::crypto::Hash,
    pub statuses: Vec<TransactionStatus>,
}

fn copy_hashes(hashes: &Vec<crate::crypto::Hash>) -> (out: Vec<crate::crypto::Hash>)
    ensures
        hash_views(out@) == hash_views(hashes@),
{
    let mut out: Vec<crate::crypto::Hash> = Vec::new();
    let mut i: usize = 0;
    while i < hashes.len()
        invariant
            i <= hashes.len(),
            out@.len() == i,
            hash_views(out@) == hash_views(hashes@).take(i as int),
        decreases hashes.len() - i,
    {
        let ghost before = hash_views(out@);
        let h = crate::crypto::Hash { bytes: copy_bytes(hashes[i].bytes.as_slice()) };
        out.push(h);
        i += 1;
        assert(hash_views(out@) =~= before.push(h@));
        assert(hash_views(hashes@).take(i as int) =~= hash_views(hashes@).take(i - 1).push(h@));
    }
    assert(hash_views(hashes@).take(hashes.len() as int) =~= hash_views(hashes@));
    out
}

fn append_hashes(out: &mut Vec<u8>, hashes: &Vec<crate::crypto::Hash>)
    ensures
        final(out)@ == old(out)@ + flatten(hash_views(hashes@)),
{
    let mut i: usize = 0;
    assert(hash_views(hashes@).take(0) =~= Seq::empty());
    assert(out@ =~= old(out)@ + flatten(hash_views(hashes@).take(0)));
    while i < hashes.len()
        invariant
            i <= hashes.len(),
            out@ == old(out)@ + flatten(hash_views(hashes@).take(i as int)),
        decreases hashes.len() - i,
    {
        let mut bytes = copy_bytes(hashes[i].bytes.as_slice());
        proof {
            let next = hash_views(hashes@).take(i + 1);
            assert(next.drop_last() =~= hash_views(hashes@).take(i as int));
            assert(next.last() == bytes@);
        }
        out.append(&mut bytes);
        i += 1;
        assert(out@ =~= old(out)@ + flatten(hash_views(hashes@).take(i as int)));
    }
    assert(hash_views(hashes@).take(hashes.len() as int) =~= hash_views(hashes@));
}

fn mix_bytes(digest: &Vec<u8>, h: &Vec<u8>) -> (out: Vec<u8>)
    ensures
        out@ == mix(digest@, h@),
{
    let mut out: Vec<u8> = Vec::new();
    let mut i: usize = 0;
    while i < h.len()
        invariant
            i <= h.len(),
            out@.len() == i,
            forall|j: int| 0 <= j < i ==> out@[j] == mix(digest@, h@)[j],
        decreases h.len() - i,
    {
        let d: u8 = if i < digest.len() {
            digest[i]
        } else {
            0
        };
        out.push(d ^ h[i]);
        i += 1;
    }
    assert(out@ =~= mix(digest@, h@));
    out
}

/// Adds `tx` to the pool of known transactions, under its hash, takes the
/// hash into the pool's digest if the pool did not hold it, and returns
/// the hash.
pub fn add_transaction_into_pool(fork: &mut Fork, tx: &Signed) -> (h: crate::crypto::Hash)
    ensures
        h@ == crate::crypto::sha256(encode_tx(tx@.raw)),
        h@.len() == crate::crypto::HASH_SIZE,
        final(fork)@ == pool_insert(old(fork)@, h@, encode_signed(tx@)),
        final(fork).adds(*old(fork), pool_insert_log(old(fork)@, h@, encode_signed(tx@))),
        final(fork).extends(*old(fork)),
{
    let h = tx.hash();
    let name = pool_name_bytes();
    let known = fork.contains(name.as_slice(), h.bytes.as_slice());
    let empty: Vec<u8> = Vec::new();
    assert(empty@ =~= Seq::<u8>::empty());
    let digest = match fork.get(name.as_slice(), empty.as_slice()) {
        Some(d) => d,
        None => Vec::new(),
    };
    fork.put(name.as_slice(), h.bytes.as_slice(), tx.encode());
    if !known {
        let ghost mid = *fork;
        fork.put(name.as_slice(), empty.as_slice(), mix_bytes(&digest, &h.bytes));
        proof {
            crate::storage::lemma_extends_trans(*old(fork), mid, *fork);
            crate::storage::lemma_adds_trans(
                *old(fork),
                mid,
                *fork,
                crate::storage::put_write(pool_name(), h@, encode_signed(tx@)),
                crate::storage::put_write(
                    pool_name(),
                    Seq::<u8>::empty(),
                    mix(pool_digest(old(fork)@), h@),
                ),
            );
        }
    }
    h
}

/// The known transaction with hash `tx_hash`: `Ok(None)` if the pool has
/// none, an error exactly when what the pool holds does not decode.
pub fn transaction<R: Readable>(store: &R, tx_hash: &crate::crypto::Hash) -> (r: Result<
    Option<Signed>,
    FatalStorageError,
>)
    ensures
        match lookup(store.contents(), (pool_name(), tx_hash@)) {
            None => r.is_ok() && r.unwrap().is_none(),
            Some(bytes) => match decode_signed(bytes) {
                None => r == Err::<Option<Signed>, FatalStorageError>(
                    FatalStorageError::Corrupted,
                ),
                Some(tx) => r.is_ok() && r.unwrap().is_some() && r.unwrap().unwrap()@ == tx,
            },
        },
{
    let name = pool_name_bytes();
    match store.read(name.as_slice(), tx_hash.bytes.as_slice()) {
        None => Ok(None),
        Some(bytes) => match Signed::decode(bytes.as_slice()) {
            None => Err(FatalStorageError::Corrupted),
            Some(tx) => Ok(Some(tx)),
        },
    }
}

/// A database together with the services that act on it.
pub struct Blockchain<S: Service> {
    db: Database,
    services: Vec<S>,
}

impl<S: Service> Blockchain<S> {
    /// The contents of the database.
    pub closed spec fn contents(&self) -> StoreMap {
        self.db@
    }

    /// The registered services, in registration order.
    pub closed spec fn services(&self) -> Seq<S> {
        self.services@
    }

    /// A blockchain over `db` with `services` registered in the given order.
    pub fn new(db: Database, services: Vec<S>) -> (b: Blockchain<S>)
        ensures
            b.contents() == db@,
            b.services() == services@,
    {
        Blockchain { db, services }
    }

    /// A read view of the current contents.
    pub fn snapshot(&self) -> (s: Snapshot)
        ensures
            s@ == self.contents(),
    {
        self.db.snapshot()
    }

    /// A fork over the current contents.
    pub fn fork(&self) -> (f: Fork)
        ensures
            f@ == self.contents(),
            f.base() == self.contents(),
            f.changes().len() == 0,
    {
        self.db.fork()
    }

    /// Applies `patch` to the database as one step.
    pub fn merge(&mut self, patch: Patch) -> (r: Result<(), FatalStorageError>)
        ensures
            r.is_ok(),
            final(self).contents() == apply_log(old(self).contents(), patch@),
            final(self).services() == old(self).services(),
    {
        self.db.merge(patch)
    }

    fn find_service(&self, id: u16) -> (r: Option<usize>)
        ensures
            match r {
                Some(i) => i < self.services().len() && lookup_service(self.services(), id, 0)
                    == Some(i as int),
                None => lookup_service(self.services(), id, 0).is_none(),
            },
    {
        let mut i: usize = 0;
        while i < self.services.len()
            invariant
                i <= self.services.len(),
                lookup_service(self.services@, id, 0) == lookup_service(self.services@, id, i as int),
            decreases self.services.len() - i,
        {
            if self.services[i].service_id() == id {
                return Some(i);
            }
            i += 1;
        }
        None
    }

    /// Applies the known transaction with hash `tx_hash` to the fork. A
    /// transaction that fails leaves the fork as it was; one that succeeds
    /// adds its writes.
    pub fn execute_transaction(&self, fork: &mut Fork, tx_hash: &crate::crypto::Hash) -> (r: Result<
        TransactionStatus,
        FatalStorageError,
    >)
        ensures
            final(fork).base() == old(fork).base(),
            match tx_step(self.services(), old(fork)@, tx_hash@) {
                Err(e) => r == Err::<TransactionStatus, FatalStorageError>(e),
                Ok(step) => r == Ok::<TransactionStatus, FatalStorageError>(step.1) && final(fork)@
                    == step.0 && final(fork).adds(
                    *old(fork),
                    tx_writes(self.services(), old(fork)@, tx_hash@),
                ),
            },
    {
        proof {
            lemma_extends_refl(*fork);
        }
        let name = pool_name_bytes();
        let bytes = match fork.get(name.as_slice(), tx_hash.bytes.as_slice()) {
            Some(bytes) => bytes,
            None => {
                return Err(FatalStorageError::Corrupted);
            },
        };
        let tx = match Signed::decode(bytes.as_slice()) {
            Some(signed) => signed.raw,
            None => {
                return Err(FatalStorageError::Corrupted);
            },
        };
        let i = match self.find_service(tx.service_id) {
            Some(i) => i,
            None => {
                return Ok(TransactionStatus::NotFound);
            },
        };
        let mark = fork.checkpoint();
        match self.services[i].execute(&tx, fork) {
            Ok(_) => Ok(TransactionStatus::Success),
            Err(ExecutionFault::Storage(e)) => Err(e),
            Err(fault) => {
                fork.rollback(mark);
                Ok(
                    match fault {
                        ExecutionFault::Rejected => TransactionStatus::Rejected,
                        ExecutionFault::Logic(code) => TransactionStatus::LogicError(code),
                        ExecutionFault::NotFound => TransactionStatus::NotFound,
                        ExecutionFault::DepthExceeded => TransactionStatus::DepthExceeded,
                        _ => TransactionStatus::Defect,
                    },
                )
            },
        }
    }

    /// Runs the commit hook of the service at position `i`. A hook that
    /// fails leaves the fork as it was; one that succeeds adds its writes.
    pub fn execute_hook(&self, fork: &mut Fork, i: usize) -> (r: Result<(), FatalStorageError>)
        requires
            i < self.services().len(),
        ensures
            final(fork).base() == old(fork).base(),
            match hook_step(self.services()[i as int], old(fork)@) {
                Err(e) => r == Err::<(), FatalStorageError>(e),
                Ok(m) => r == Ok::<(), FatalStorageError>(()) && final(fork)@ == m && final(fork).adds(*old(fork), hook_writes(self.services()[i as int], old(fork)@)),
            },
    {
        proof {
            lemma_extends_refl(*fork);
        }
        let mark = fork.checkpoint();
        match self.services[i].before_commit(fork) {
            Ok(_) => Ok(()),
            Err(ExecutionFault::Storage(e)) => Err(e),
            Err(_) => {
                fork.rollback(mark);
                Ok(())
            },
        }
    }

    /// Builds the block at `height` from the known transactions with the
    /// given hashes, in their order, over the current contents. Returns the
    /// header and the patch, not yet merged; the patch holds the writes of
    /// the steps that succeeded, in their order, and no other write. Fails
    /// exactly when a storage fault ended the block.
    #[verifier::loop_isolation(false)]
    pub fn create_patch(&self, validator_id: u16, height: u64, tx_hashes: &Vec<crate::crypto::Hash>) -> (r: Result<
        (BlockHeader, Patch),
        FatalStorageError,
    >)
        ensures
            match run_block(self.services(), self.contents(), hash_views(tx_hashes@)) {
                Err(e) => r is Err && r->Err_0 == e,
                Ok(block) => {
                    &&& r is Ok
                    &&& r->Ok_0.1@ == block_log(
                        self.services(),
                        self.contents(),
                        hash_views(tx_hashes@),
                    )
                    &&& apply_log(self.contents(), r->Ok_0.1@) == block.0
                    &&& r->Ok_0.0.statuses@ == block.1
                    &&& r->Ok_0.0.proposer == validator_id
                    &&& r->Ok_0.0.height == height
                    &&& hash_views(r->Ok_0.0.tx_hashes@) == hash_views(tx_hashes@)
                    &&& r->Ok_0.0.state_hash@ == crate::crypto::sha256(
                        state_hash_input(
                            self.services(),
                            block.0,
                            height,
                            hash_views(tx_hashes@),
                        ),
                    )
                },
            },
    {
        let ghost hashes = hash_views(tx_hashes@);
        let mut fork = self.db.fork();
        let mut statuses: Vec<TransactionStatus> = Vec::new();
        let mut i: usize = 0;
        assert(hashes.take(0) =~= Seq::empty());
        while i < tx_hashes.len()
            invariant
                i <= tx_hashes.len(),
                hashes == hash_views(tx_hashes@),
                fork.base() == self.contents(),
                run_transactions(self.services(), self.contents(), hashes.take(i as int)) == Ok::<
                    (StoreMap, Seq<TransactionStatus>),
                    FatalStorageError,
                >((fork@, statuses@)),
                fork.changes() == transactions_log(
                    self.services(),
                    self.contents(),
                    hashes.take(i as int),
                ),
            decreases tx_hashes.len() - i,
        {
            proof {
                assert(hashes.take(i + 1).drop_last() =~= hashes.take(i as int));
                assert(hashes.take(i + 1).last() == tx_hashes@[i as int]@);
                assert(hashes.take(tx_hashes.len() as int) =~= hashes);
            }
            match self.execute_transaction(&mut fork, &tx_hashes[i]) {
                Err(e) => {
                    proof {
                        lemma_failed_prefix(self.services(), self.contents(), hashes, i + 1);
                    }
                    return Err(e);
                },
                Ok(status) => {
                    statuses.push(status);
                },
            }
            i += 1;
        }
        assert(hashes.take(tx_hashes.len() as int) =~= hashes);
        let ghost after_txs = fork@;
        let ghost tx_log = fork.changes();
        let mut j: usize = 0;
        assert(tx_log + hooks_log(self.services(), after_txs, 0) =~= tx_log);
        while j < self.services.len()
            invariant
                j <= self.services.len(),
                fork.base() == self.contents(),
                fork.changes() == tx_log + hooks_log(self.services(), after_txs, j as int),
                run_hooks(self.services(), after_txs, j as int) == Ok::<
                    StoreMap,
                    FatalStorageError,
                >(fork@),
            decreases self.services.len() - j,
        {
            let ghost before = fork@;
            match self.execute_hook(&mut fork, j) {
                Err(e) => {
                    proof {
                        assert(run_hooks(self.services(), after_txs, j + 1) == hook_step(
                            self.services()[j as int],
                            before,
                        )) by {
                            assert(run_hooks(self.services(), after_txs, j as int) is Ok);
                        }
                        lemma_failed_hooks(
                            self.services(),
                            after_txs,
                            j + 1,
                            self.services().len() as int,
                        );
                    }
                    return Err(e);
                },
                Ok(_) => {},
            }
            j += 1;
            assert(fork.changes() =~= tx_log + hooks_log(self.services(), after_txs, j as int));
        }
        let mut input = u64_to_le_bytes(height);
        append_hashes(&mut input, tx_hashes);
        let pool = pool_name_bytes();
        let empty: Vec<u8> = Vec::new();
        assert(empty@ =~= Seq::<u8>::empty());
        let mut digest = match fork.get(pool.as_slice(), empty.as_slice()) {
            Some(d) => d,
            None => Vec::new(),
        };
        input.append(&mut digest);
        let ghost head = input@;
        let mut k: usize = 0;
        assert(input@ =~= head + service_hashes(self.services(), fork@, 0));
        while k < self.services.len()
            invariant
                k <= self.services.len(),
                input@ == head + service_hashes(self.services(), fork@, k as int),
            decreases self.services.len() - k,
        {
            let declared = self.services[k].state_hash(&fork);
            append_hashes(&mut input, &declared);
            k += 1;
            assert(input@ =~= head + service_hashes(self.services(), fork@, k as int));
        }
        let state_hash = hash(input.as_slice());
        let header = BlockHeader {
            proposer: validator_id,
            height,
            tx_hashes: copy_hashes(tx_hashes),
            state_hash,
            statuses,
        };
        let patch = fork.into_patch();
        Ok((header, patch))
    }
}

/// A transaction that is recorded as anything but a success leaves the
/// store's contents exactly as they were before it.
pub proof fn law_failed_transaction_leaves_no_trace<S: Service>(
    services: Seq<S>,
    m: StoreMap,
    tx_hash: Seq<u8>,
)
    ensures
        match tx_step(services, m, tx_hash) {
            Ok(step) => step.1 != TransactionStatus::Success ==> step.0 == m,
            Err(_) => true,
        },
{
}

/// A block in which a transaction ends in a storage fault has no result:
/// neither contents nor statuses come out of it.
pub proof fn law_storage_fault_ends_the_block<S: Service>(
    services: Seq<S>,
    m: StoreMap,
    tx_hashes: Seq<Seq<u8>>,
    n: int,
)
    requires
        0 <= n < tx_hashes.len(),
        run_transactions(services, m, tx_hashes.take(n)) is Ok,
        tx_step(
            services,
            run_transactions(services, m, tx_hashes.take(n))->Ok_0.0,
            tx_hashes[n],
        ) is Err,
    ensures
        run_block(services, m, tx_hashes) is Err,
{
    assert(tx_hashes.take(n + 1).drop_last() =~= tx_hashes.take(n));
    assert(tx_hashes.take(n + 1).last() == tx_hashes[n]);
    lemma_failed_prefix(services, m, tx_hashes, n + 1);
}

/// Hooks that all fail leave no write in a block's patch, whatever the
/// store holds.
pub proof fn law_failed_hooks_write_nothing<S: Service>(services: Seq<S>, m: StoreMap, n: int)
    requires
        0 <= n <= services.len(),
        forall|i: int, x: StoreMap|
            0 <= i < n ==> (#[trigger] services[i].before_commit_spec(x)).0 is Err,
    ensures
        hooks_log(services, m, n) == Seq::<ChangeView>::empty(),
    decreases n,
{
    if n > 0 {
        law_failed_hooks_write_nothing(services, m, n - 1);
        assert(Seq::<ChangeView>::empty() + Seq::<ChangeView>::empty() =~= Seq::<
            ChangeView,
        >::empty());
    }
}

/// A transaction that is recorded as anything but a success leaves no write
/// in the block's patch.
pub proof fn law_failed_transaction_writes_nothing<S: Service>(
    services: Seq<S>,
    m: StoreMap,
    tx_hash: Seq<u8>,
)
    ensures
        match tx_step(services, m, tx_hash) {
            Ok(step) => step.1 != TransactionStatus::Success ==> tx_writes(services, m, tx_hash)
                == Seq::<ChangeView>::empty(),
            Err(_) => true,
        },
{
}

/// Once a prefix of the transactions has ended in a storage fault, so has
/// every longer prefix.
pub proof fn lemma_failed_prefix<S: Service>(
    services: Seq<S>,
    m: StoreMap,
    tx_hashes: Seq<Seq<u8>>,
    n: int,
)
    requires
        0 <= n <= tx_hashes.len(),
        run_transactions(services, m, tx_hashes.take(n)).is_err(),
    ensures
        run_transactions(services, m, tx_hashes) == run_transactions(services, m, tx_hashes.take(n)),
    decreases tx_hashes.len() - n,
{
    if n == tx_hashes.len() {
        assert(tx_hashes.take(n) =~= tx_hashes);
    } else {
        assert(tx_hashes.take(n + 1).drop_last() =~= tx_hashes.take(n));
        lemma_failed_prefix(services, m, tx_hashes, n + 1);
    }
}

/// Once the hooks of the first `n` services have ended in a storage fault,
/// so have those of any larger number.
pub proof fn lemma_failed_hooks<S: Service>(services: Seq<S>, m: StoreMap, n: int, total: int)
    requires
        0 <= n <= total,
        run_hooks(services, m, n).is_err(),
    ensures
        run_hooks(services, m, total) == run_hooks(services, m, n),
    decreases total - n,
{
    if n < total {
        lemma_failed_hooks(services, m, n, total - 1);
    }
}

} // verus!
