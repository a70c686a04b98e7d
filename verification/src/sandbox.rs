//! The timestamping service: transactions that carry opaque data and change
//! nothing, and a generator of such transactions.

use crate::blockchain::{
    encode_tx, ExecutionFault, RawTransaction, RawTransactionView, Service,
};
use crate::crypto::{
    ed25519_public_key, ed25519_signature, gen_keypair, PublicKey, SecretKey,
};
use crate::messages::{sign_transaction, Signed};
use crate::storage::{copy_bytes, lemma_extends_refl, ChangeView, Fork, StoreMap};
use rand::{Rng, SeedableRng};
use vstd::prelude::*;

verus! {

/// The id of the timestamping service.
pub const TIMESTAMPING_SERVICE: u16 = 129;

/// The usual size of a timestamp's data, in bytes.
pub const DATA_SIZE: usize = 64;

/// The message id of a timestamp transaction.
pub const TIMESTAMP_TX_ID: u16 = 0;

/// A message that carries data to be timestamped.
#[derive(Clone, Debug, PartialEq, Eq)]
pub struct TimestampTx {
    pub data: Vec<u8>,
}

impl View for TimestampTx {
    type V = Seq<u8>;

    open spec fn view(&self) -> Seq<u8> {
        self.data@
    }
}

impl TimestampTx {
    /// A message without data.
    pub fn new() -> (tx: TimestampTx)
        ensures
            tx@ == Seq::<u8>::empty(),
    {
        TimestampTx { data: Vec::new() }
    }

    /// Replaces the message's data.
    pub fn set_data(&mut self, data: Vec<u8>)
        ensures
            final(self)@ == data@,
    {
        self.data = data;
    }

    /// The message as the payload of a transaction: its data.
    pub fn write_to_bytes(&self) -> (out: Vec<u8>)
        ensures
            out@ == self@,
    {
        copy_bytes(self.data.as_slice())
    }
}

/// The transactions of the timestamping service.
#[derive(Clone, Debug, PartialEq, Eq)]
pub enum TimestampingTransactions {
    TimestampTx(TimestampTx),
}

/// Why a raw transaction is no message of a service.
#[derive(Clone, Copy, Debug, PartialEq, Eq, Structural)]
pub enum MessageError {
    /// The service has no message with this id.
    UnknownTag(u16),
    /// The payload has not the size of the message with this id.
    IncorrectPayloadSize(u16),
}

impl TimestampingTransactions {
    /// The message that `raw` carries: a timestamp with the payload as its
    /// data for message 0, an error that names the id for any other.
    pub fn tx_from_raw(raw: &RawTransaction) -> (r: Result<TimestampingTransactions, MessageError>)
        ensures
            raw.message_id == TIMESTAMP_TX_ID ==> r is Ok && r->Ok_0->TimestampTx_0@
                == raw.payload@,
            raw.message_id != TIMESTAMP_TX_ID ==> r == Err::<
                TimestampingTransactions,
                MessageError,
            >(MessageError::UnknownTag(raw.message_id)),
    {
        if raw.message_id == TIMESTAMP_TX_ID {
            let mut tx = TimestampTx::new();
            tx.set_data(copy_bytes(raw.payload.as_slice()));
            Ok(TimestampingTransactions::TimestampTx(tx))
        } else {
            Err(MessageError::UnknownTag(raw.message_id))
        }
    }

    /// The raw transaction that carries this message to the timestamping
    /// service.
    pub fn into_raw(self) -> (raw: RawTransaction)
        ensures
            raw@ == (RawTransactionView {
                service_id: TIMESTAMPING_SERVICE,
                message_id: TIMESTAMP_TX_ID,
                payload: self->TimestampTx_0@,
            }),
    {
        match self {
            TimestampingTransactions::TimestampTx(tx) => RawTransaction {
                service_id: TIMESTAMPING_SERVICE,
                message_id: TIMESTAMP_TX_ID,
                payload: tx.write_to_bytes(),
            },
        }
    }

    /// Executes the message: a timestamp changes nothing and succeeds.
    pub fn execute(&self, fork: &mut Fork) -> (r: Result<(), ExecutionFault>)
        ensures
            r == Ok::<(), ExecutionFault>(()),
            *final(fork) == *old(fork),
    {
        Ok(())
    }
}

/// The service that accepts timestamps.
#[derive(Clone, Copy, Debug, Default, PartialEq, Eq)]
pub struct TimestampingService {}

impl TimestampingService {
    /// The timestamping service.
    pub fn new() -> (s: TimestampingService)
        ensures
            s == (TimestampingService {  }),
    {
        TimestampingService {  }
    }
}

/// The two hashes that the timestamping service declares, whatever the
/// store holds: 32 bytes of 127 and 32 bytes of 128.
pub open spec fn timestamping_hashes() -> Seq<Seq<u8>> {
    seq![Seq::new(32, |i: int| 127u8), Seq::new(32, |i: int| 128u8)]
}

impl Service for TimestampingService {
    open spec fn id(&self) -> u16 {
        TIMESTAMPING_SERVICE
    }

    open spec fn name(&self) -> Seq<char> {
        "sandbox_timestamping"@
    }

    open spec fn hashes(&self, m: StoreMap) -> Seq<Seq<u8>> {
        timestamping_hashes()
    }

    open spec fn execute_spec(&self, tx: RawTransactionView, m: StoreMap) -> (
        Result<(), ExecutionFault>,
        StoreMap,
    ) {
        if tx.message_id == TIMESTAMP_TX_ID {
            (Ok(()), m)
        } else {
            (Err(ExecutionFault::Rejected), m)
        }
    }

    open spec fn execute_writes(&self, tx: RawTransactionView, m: StoreMap) -> Seq<ChangeView> {
        Seq::empty()
    }

    open spec fn before_commit_spec(&self, m: StoreMap) -> (Result<(), ExecutionFault>, StoreMap) {
        (Ok(()), m)
    }

    open spec fn before_commit_writes(&self, m: StoreMap) -> Seq<ChangeView> {
        Seq::empty()
    }

    fn service_id(&self) -> (r: u16) {
        TIMESTAMPING_SERVICE
    }

    fn service_name(&self) -> (r: String) {
        "sandbox_timestamping".to_owned()
    }

    fn state_hash(&self, fork: &Fork) -> (r: Vec<crate::crypto::Hash>) {
        let mut r: Vec<crate::crypto::Hash> = Vec::new();
        r.push(crate::crypto::Hash::filled(127));
        r.push(crate::crypto::Hash::filled(128));
        assert(crate::blockchain::hash_views(r@) =~= timestamping_hashes());
        r
    }

    fn execute(&self, tx: &RawTransaction, fork: &mut Fork) -> (r: Result<(), ExecutionFault>) {
        proof {
            lemma_extends_refl(*fork);
        }
        match TimestampingTransactions::tx_from_raw(tx) {
            Ok(message) => message.execute(fork),
            Err(_) => Err(ExecutionFault::Rejected),
        }
    }

    fn before_commit(&self, fork: &mut Fork) -> (r: Result<(), ExecutionFault>) {
        proof {
            lemma_extends_refl(*fork);
        }
        Ok(())
    }
}

#[verifier::external_type_specification]
#[verifier::external_body]
pub struct ExXorShiftRng(rand_xorshift::XorShiftRng);

/// The four words that a xorshift generator holds, as bytes.
pub uninterp spec fn xorshift_state(rng: rand_xorshift::XorShiftRng) -> Seq<u8>;

/// The state of the xorshift generator that is made from a seed.
pub uninterp spec fn xorshift_seeded(seed: Seq<u8>) -> Seq<u8>;

/// The `n` bytes that a xorshift generator in state `state` fills a buffer
/// of length `n` with.
pub uninterp spec fn xorshift_bytes(state: Seq<u8>, n: nat) -> Seq<u8>;

/// The state of a xorshift generator after it has filled a buffer of
/// length `n` from state `state`.
pub uninterp spec fn xorshift_after(state: Seq<u8>, n: nat) -> Seq<u8>;

/// Calls `XorShiftRng::from_seed`, which accepts every seed. The state of
/// the generator that it returns is a function of the seed alone.
#[verifier::external_body]
fn rng_from_seed(seed: [u8; 16]) -> (rng: rand_xorshift::XorShiftRng)
    ensures
        xorshift_state(rng) == xorshift_seeded(seed@),
{
    rand_xorshift::XorShiftRng::from_seed(seed)
}

/// Calls `fill_bytes` on the generator, which overwrites every byte of the
/// buffer and leaves its length alone. The bytes, and the generator's state
/// afterwards, are functions of its state before and of the buffer's
/// length.
#[verifier::external_body]
fn rng_fill_bytes(rng: &mut rand_xorshift::XorShiftRng, data: &mut Vec<u8>)
    ensures
        final(data)@.len() == old(data)@.len(),
        final(data)@ == xorshift_bytes(xorshift_state(*old(rng)), old(data)@.len() as nat),
        xorshift_state(*final(rng)) == xorshift_after(
            xorshift_state(*old(rng)),
            old(data)@.len() as nat,
        ),
{
    rng.fill_bytes(data.as_mut_slice())
}

/// The seed that every generator of timestamps starts from: sixteen bytes
/// of 9.
pub open spec fn generator_seed() -> Seq<u8> {
    Seq::new(16, |i: int| 9u8)
}

/// An endless source of timestamp transactions with pseudo-random data.
pub struct TimestampingTxGenerator {
    rand: rand_xorshift::XorShiftRng,
    data_size: usize,
    public_key: PublicKey,
    secret_key: SecretKey,
}

/// `n` zero bytes.
pub fn zeroes(n: usize) -> (out: Vec<u8>)
    ensures
        out@ == Seq::new(n as nat, |i: int| 0u8),
{
    let mut out: Vec<u8> = Vec::new();
    let mut i: usize = 0;
    while i < n
        invariant
            i <= n,
            out@ == Seq::new(i as nat, |j: int| 0u8),
        decreases n - i,
    {
        out.push(0);
        i += 1;
        assert(out@ =~= Seq::new(i as nat, |j: int| 0u8));
    }
    out
}

impl TimestampingTxGenerator {
    /// The size of the data of every transaction that comes out.
    pub closed spec fn data_size(&self) -> usize {
        self.data_size
    }

    /// The author's keys.
    pub closed spec fn keypair(&self) -> (PublicKey, SecretKey) {
        (self.public_key, self.secret_key)
    }

    /// The state of the generator that the data are drawn from.
    pub closed spec fn state(&self) -> Seq<u8> {
        xorshift_state(self.rand)
    }

    /// A generator of transactions with `data_size` bytes of data by a fresh
    /// author; `None` when the operating system gives no randomness for the
    /// author's keys.
    pub fn new(data_size: usize) -> (g: Option<TimestampingTxGenerator>)
        ensures
            g matches Some(generator) ==> generator.data_size() == data_size
                && generator.keypair().0@ == ed25519_public_key(generator.keypair().1@)
                && generator.state() == xorshift_seeded(generator_seed()),
    {
        match gen_keypair() {
            Some(keypair) => Some(TimestampingTxGenerator::with_keypair(data_size, keypair)),
            None => None,
        }
    }

    /// A generator of transactions with `data_size` bytes of data, authored
    /// by the holder of `keypair`. Its data start from the fixed seed,
    /// whatever the keys are.
    pub fn with_keypair(data_size: usize, keypair: (PublicKey, SecretKey)) -> (g:
        TimestampingTxGenerator)
        ensures
            g.data_size() == data_size,
            g.keypair() == keypair,
            g.state() == xorshift_seeded(generator_seed()),
    {
        let seed: [u8; 16] = [9u8; 16];
        assert(seed@ =~= generator_seed());
        let rand = rng_from_seed(seed);
        TimestampingTxGenerator {
            rand,
            data_size,
            public_key: keypair.0,
            secret_key: keypair.1,
        }
    }

    /// The author's public key.
    pub fn public_key(&self) -> (key: &PublicKey)
        ensures
            *key == self.keypair().0,
    {
        &self.public_key
    }

    /// The next transaction: always `Some`, a timestamp addressed to the
    /// timestamping service, signed with the generator's secret key. Its
    /// data are the next bytes of the generator, as many as its size.
    pub fn next(&mut self) -> (r: Option<Signed>)
        ensures
            final(self).data_size() == old(self).data_size(),
            final(self).keypair() == old(self).keypair(),
            r is Some,
            r->Some_0.author == old(self).keypair().0,
            r->Some_0.raw@.service_id == TIMESTAMPING_SERVICE,
            r->Some_0.raw@.message_id == TIMESTAMP_TX_ID,
            r->Some_0.raw@.payload.len() == old(self).data_size(),
            r->Some_0.raw@.payload == xorshift_bytes(
                old(self).state(),
                old(self).data_size() as nat,
            ),
            final(self).state() == xorshift_after(
                old(self).state(),
                old(self).data_size() as nat,
            ),
            r->Some_0.signature@ == ed25519_signature(
                old(self).keypair().1@,
                encode_tx(r->Some_0.raw@),
            ),
    {
        let mut data = zeroes(self.data_size);
        rng_fill_bytes(&mut self.rand, &mut data);
        let mut buf = TimestampTx::new();
        buf.set_data(data);
        let message = TimestampingTransactions::TimestampTx(buf);
        Some(sign_transaction(message.into_raw(), self.public_key, &self.secret_key))
    }
}

} // verus!
