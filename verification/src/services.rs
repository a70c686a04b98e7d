//! Small services that exercise the pipeline's fault boundary: one whose
//! transactions can fail in each way, and three whose commit hooks succeed,
//! fail, and report a storage fault.

use crate::blockchain::{ExecutionFault, RawTransaction, RawTransactionView, Service};
use crate::list_index::{law_push, list_state, push_log, push_map, push_writes, ListIndex};
use crate::sandbox::MessageError;
use crate::storage::{
    lemma_adds_trans, lemma_extends_refl, lemma_extends_trans, ChangeView, FatalStorageError, Fork,
    StoreMap,
};
use vstd::bytes::*;
use vstd::prelude::*;
use vstd::slice::*;
use vstd::string::*;

verus! {

/// The id of `TestService`.
pub const TEST_SERVICE_ID: u16 = 255;

/// The code of the logic error that a division by zero is recorded with.
pub const DIVISION_BY_ZERO: u8 = 1;

/// The value whose transaction reports a storage fault.
pub const STORAGE_FAULT_VALUE: u64 = 42;

/// The name of the list that these services write to.
pub open spec fn idx_name() -> Seq<u8> {
    "idx_name".spec_bytes()
}

/// The list that these services write to.
pub fn idx() -> (index: ListIndex)
    ensures
        index.name() == idx_name(),
{
    ListIndex::new("idx_name")
}

/// A transaction that appends `value` and then `42 / value` to the list.
#[derive(Clone, Copy, Debug, PartialEq, Eq, Structural)]
pub struct Tx {
    pub value: u64,
}

impl Tx {
    /// The transaction with this value.
    pub fn new(value: u64) -> (tx: Tx)
        ensures
            tx.value == value,
    {
        Tx { value }
    }

    /// The transaction's value.
    pub fn value(&self) -> (v: u64)
        ensures
            v == self.value,
    {
        self.value
    }

    /// The payload that carries the transaction: its value, little-endian.
    pub fn to_raw(&self) -> (raw: RawTransaction)
        ensures
            raw@ == (RawTransactionView {
                service_id: TEST_SERVICE_ID,
                message_id: 0,
                payload: spec_u64_to_le_bytes(self.value),
            }),
    {
        RawTransaction {
            service_id: TEST_SERVICE_ID,
            message_id: 0,
            payload: u64_to_le_bytes(self.value),
        }
    }

    /// Result and store contents after the transaction with value `value`
    /// runs on contents `m`. The value 42 reports a storage fault before
    /// anything is written; the value 0 fails on the division, after its
    /// first write.
    pub open spec fn execute_spec(value: u64, m: StoreMap) -> (Result<(), ExecutionFault>, StoreMap) {
        if value == STORAGE_FAULT_VALUE {
            (Err(ExecutionFault::Storage(FatalStorageError::Reported)), m)
        } else {
            match list_state(m, idx_name()) {
                None => (Err(ExecutionFault::Storage(FatalStorageError::Corrupted)), m),
                Some(s) => if s.1 == u64::MAX {
                    (Err(ExecutionFault::Storage(FatalStorageError::Exhausted)), m)
                } else if value == 0 {
                    (
                        Err(ExecutionFault::Logic(DIVISION_BY_ZERO)),
                        push_map(m, idx_name(), s.0, s.1, value),
                    )
                } else if s.1 + 1 == u64::MAX {
                    (
                        Err(ExecutionFault::Storage(FatalStorageError::Exhausted)),
                        push_map(m, idx_name(), s.0, s.1, value),
                    )
                } else {
                    (
                        Ok(()),
                        push_map(
                            push_map(m, idx_name(), s.0, s.1, value),
                            idx_name(),
                            s.0,
                            (s.1 + 1) as u64,
                            (42u64 / value) as u64,
                        ),
                    )
                },
            }
        }
    }

    /// The writes that the transaction with value `value` buffers on
    /// contents `m`: none for the value 42, else those of the push of the
    /// value, and for a value other than 0 those of the push of `42 / value`.
    pub open spec fn execute_writes(value: u64, m: StoreMap) -> Seq<ChangeView> {
        if value == STORAGE_FAULT_VALUE {
            Seq::empty()
        } else if value == 0 {
            push_log(m, idx_name(), value)
        } else {
            push_log(m, idx_name(), value) + push_log(
                Tx::after_first_push(value, m),
                idx_name(),
                (42u64 / value) as u64,
            )
        }
    }

    /// The store's contents after the transaction's first push, or as they
    /// were where that push fails.
    pub open spec fn after_first_push(value: u64, m: StoreMap) -> StoreMap {
        match list_state(m, idx_name()) {
            None => m,
            Some(s) => if s.1 == u64::MAX {
                m
            } else {
                push_map(m, idx_name(), s.0, s.1, value)
            },
        }
    }

    /// Runs the transaction against the fork.
    pub fn execute(&self, fork: &mut Fork) -> (r: Result<(), ExecutionFault>)
        ensures
            final(fork).extends(*old(fork)),
            final(fork).adds(*old(fork), Tx::execute_writes(self.value, old(fork)@)),
            (r, final(fork)@) == Tx::execute_spec(self.value, old(fork)@),
    {
        proof {
            lemma_extends_refl(*fork);
        }
        if self.value == STORAGE_FAULT_VALUE {
            return Err(ExecutionFault::Storage(FatalStorageError::Reported));
        }
        let index = idx();
        match index.push(fork, self.value) {
            Err(e) => {
                assert(Tx::execute_writes(self.value, old(fork)@) =~= Seq::empty());
                return Err(ExecutionFault::Storage(e));
            },
            Ok(_) => {},
        }
        proof {
            let s = list_state(old(fork)@, idx_name()).unwrap();
            law_push(old(fork)@, idx_name(), s.0, s.1, self.value);
        }
        if self.value == 0 {
            return Err(ExecutionFault::Logic(DIVISION_BY_ZERO));
        }
        let ghost mid = *fork;
        let quotient: u64 = 42 / self.value;
        let second = index.push(fork, quotient);
        proof {
            lemma_extends_trans(*old(fork), mid, *fork);
            lemma_adds_trans(
                *old(fork),
                mid,
                *fork,
                push_log(old(fork)@, idx_name(), self.value),
                push_log(mid@, idx_name(), quotient),
            );
        }
        match second {
            Err(e) => Err(ExecutionFault::Storage(e)),
            Ok(_) => Ok(()),
        }
    }
}

/// The transaction that a payload stands for: message 0 with a payload of
/// eight bytes.
pub open spec fn decode_value(tx: RawTransactionView) -> Option<u64> {
    if tx.message_id == 0 && tx.payload.len() == 8 {
        Some(spec_u64_from_le_bytes(tx.payload))
    } else {
        None
    }
}

/// A service whose transactions are `Tx`.
#[derive(Clone, Copy, Debug, PartialEq, Eq, Structural)]
pub struct TestService;

impl TestService {
    /// Decodes a transaction of this service; `None` exactly when the
    /// message is not message 0 with eight bytes of payload.
    pub fn tx_from_raw(&self, raw: &RawTransaction) -> (r: Option<Tx>)
        ensures
            match decode_value(raw@) {
                Some(v) => r == Some(Tx { value: v }),
                None => r.is_none(),
            },
    {
        if raw.message_id == 0 && raw.payload.len() == 8 {
            Some(Tx { value: u64_from_le_bytes(raw.payload.as_slice()) })
        } else {
            None
        }
    }
}

impl Service for TestService {
    open spec fn id(&self) -> u16 {
        TEST_SERVICE_ID
    }

    open spec fn name(&self) -> Seq<char> {
        "test service"@
    }

    open spec fn hashes(&self, m: StoreMap) -> Seq<Seq<u8>> {
        Seq::empty()
    }

    open spec fn execute_spec(&self, tx: RawTransactionView, m: StoreMap) -> (
        Result<(), ExecutionFault>,
        StoreMap,
    ) {
        match decode_value(tx) {
            None => (Err(ExecutionFault::Rejected), m),
            Some(v) => Tx::execute_spec(v, m),
        }
    }

    open spec fn execute_writes(&self, tx: RawTransactionView, m: StoreMap) -> Seq<ChangeView> {
        match decode_value(tx) {
            None => Seq::empty(),
            Some(v) => Tx::execute_writes(v, m),
        }
    }

    open spec fn before_commit_spec(&self, m: StoreMap) -> (Result<(), ExecutionFault>, StoreMap) {
        (Ok(()), m)
    }

    open spec fn before_commit_writes(&self, m: StoreMap) -> Seq<ChangeView> {
        Seq::empty()
    }

    fn service_id(&self) -> (r: u16) {
        TEST_SERVICE_ID
    }

    fn service_name(&self) -> (r: String) {
        "test service".to_owned()
    }

    fn state_hash(&self, fork: &Fork) -> (r: Vec<crate::crypto::Hash>) {
        let r: Vec<crate::crypto::Hash> = Vec::new();
        assert(crate::blockchain::hash_views(r@) =~= Seq::empty());
        r
    }

    fn execute(&self, tx: &RawTransaction, fork: &mut Fork) -> (r: Result<(), ExecutionFault>) {
        proof {
            lemma_extends_refl(*fork);
        }
        match self.tx_from_raw(tx) {
            None => Err(ExecutionFault::Rejected),
            Some(t) => t.execute(fork),
        }
    }

    fn before_commit(&self, fork: &mut Fork) -> (r: Result<(), ExecutionFault>) {
        proof {
            lemma_extends_refl(*fork);
        }
        Ok(())
    }
}

/// A set of three kinds of transactions that all succeed without writing.
#[derive(Clone, Copy, Debug, PartialEq, Eq, Structural)]
pub enum MyTransactions {
    A { a: u32 },
    B { b: u32, c: u8 },
    C { a: u32 },
}

/// The message id and the payload of a transaction of the set: the kinds
/// are numbered in their order, and the payload holds the fields in their
/// order, numbers little-endian.
pub open spec fn my_tx_parts(tx: MyTransactions) -> (u16, Seq<u8>) {
    match tx {
        MyTransactions::A { a } => (0u16, spec_u32_to_le_bytes(a)),
        MyTransactions::B { b, c } => (1u16, spec_u32_to_le_bytes(b) + seq![c]),
        MyTransactions::C { a } => (2u16, spec_u32_to_le_bytes(a)),
    }
}

/// The transaction of the set that a message id and a payload stand for.
pub open spec fn my_tx_parse(message_id: u16, payload: Seq<u8>) -> Result<
    MyTransactions,
    MessageError,
> {
    if message_id > 2 {
        Err(MessageError::UnknownTag(message_id))
    } else if payload.len() != (if message_id == 1 {
        5int
    } else {
        4int
    }) {
        Err(MessageError::IncorrectPayloadSize(message_id))
    } else if message_id == 0 {
        Ok(MyTransactions::A { a: spec_u32_from_le_bytes(payload) })
    } else if message_id == 1 {
        Ok(MyTransactions::B { b: spec_u32_from_le_bytes(payload.subrange(0, 4)), c: payload[4] })
    } else {
        Ok(MyTransactions::C { a: spec_u32_from_le_bytes(payload) })
    }
}

/// Parsing the parts of a transaction gives the transaction back.
pub proof fn law_my_tx_round_trip(tx: MyTransactions)
    ensures
        my_tx_parse(my_tx_parts(tx).0, my_tx_parts(tx).1) == Ok::<MyTransactions, MessageError>(
            tx,
        ),
{
    lemma_auto_spec_u32_to_from_le_bytes();
    match tx {
        MyTransactions::B { b, c } => {
            let payload = my_tx_parts(tx).1;
            assert(payload.subrange(0, 4) =~= spec_u32_to_le_bytes(b));
        },
        _ => {},
    }
}

impl MyTransactions {
    /// The raw transaction that carries this transaction to `TestService`.
    pub fn into_raw(&self) -> (raw: RawTransaction)
        ensures
            raw@ == (RawTransactionView {
                service_id: TEST_SERVICE_ID,
                message_id: my_tx_parts(*self).0,
                payload: my_tx_parts(*self).1,
            }),
    {
        match self {
            MyTransactions::A { a } => RawTransaction {
                service_id: TEST_SERVICE_ID,
                message_id: 0,
                payload: u32_to_le_bytes(*a),
            },
            MyTransactions::B { b, c } => {
                let mut payload = u32_to_le_bytes(*b);
                payload.push(*c);
                assert(payload@ =~= spec_u32_to_le_bytes(*b) + seq![*c]);
                RawTransaction { service_id: TEST_SERVICE_ID, message_id: 1, payload }
            },
            MyTransactions::C { a } => RawTransaction {
                service_id: TEST_SERVICE_ID,
                message_id: 2,
                payload: u32_to_le_bytes(*a),
            },
        }
    }

    /// The transaction that `raw` carries, or why it carries none.
    pub fn tx_from_raw(raw: &RawTransaction) -> (r: Result<MyTransactions, MessageError>)
        ensures
            r == my_tx_parse(raw.message_id, raw.payload@),
    {
        let id = raw.message_id;
        if id > 2 {
            return Err(MessageError::UnknownTag(id));
        }
        let expected: usize = if id == 1 {
            5
        } else {
            4
        };
        if raw.payload.len() != expected {
            return Err(MessageError::IncorrectPayloadSize(id));
        }
        if id == 1 {
            let b = u32_from_le_bytes(slice_subrange(raw.payload.as_slice(), 0, 4));
            Ok(MyTransactions::B { b, c: raw.payload[4] })
        } else {
            let a = u32_from_le_bytes(raw.payload.as_slice());
            if id == 0 {
                Ok(MyTransactions::A { a })
            } else {
                Ok(MyTransactions::C { a })
            }
        }
    }

    /// Executes the transaction: it succeeds and writes nothing.
    pub fn execute(&self, fork: &mut Fork) -> (r: Result<(), ExecutionFault>)
        ensures
            r == Ok::<(), ExecutionFault>(()),
            *final(fork) == *old(fork),
    {
        Ok(())
    }
}

/// What a commit hook does.
#[derive(Clone, Copy, Debug, PartialEq, Eq, Structural)]
pub enum HookBehaviour {
    /// Appends 1 to the list.
    Good,
    /// Fails with a defect of the service.
    Panic,
    /// Reports a storage fault.
    PanicStorageError,
}

/// Result and store contents after the commit hook that appends 1.
pub open spec fn good_hook_spec(m: StoreMap) -> (Result<(), ExecutionFault>, StoreMap) {
    match list_state(m, idx_name()) {
        None => (Err(ExecutionFault::Storage(FatalStorageError::Corrupted)), m),
        Some(s) => if s.1 == u64::MAX {
            (Err(ExecutionFault::Storage(FatalStorageError::Exhausted)), m)
        } else {
            (Ok(()), push_map(m, idx_name(), s.0, s.1, 1))
        },
    }
}

/// A service with id 1 that accepts no transaction and whose commit hook
/// behaves as its `behaviour` says.
#[derive(Clone, Copy, Debug, PartialEq, Eq, Structural)]
pub struct HookService {
    pub behaviour: HookBehaviour,
}

/// The service whose commit hook appends 1 to the list.
pub fn service_good() -> (s: HookService)
    ensures
        s.behaviour == HookBehaviour::Good,
{
    HookService { behaviour: HookBehaviour::Good }
}

/// The service whose commit hook fails with a defect.
pub fn service_panic() -> (s: HookService)
    ensures
        s.behaviour == HookBehaviour::Panic,
{
    HookService { behaviour: HookBehaviour::Panic }
}

/// The service whose commit hook reports a storage fault.
pub fn service_panic_storage_error() -> (s: HookService)
    ensures
        s.behaviour == HookBehaviour::PanicStorageError,
{
    HookService { behaviour: HookBehaviour::PanicStorageError }
}

impl Service for HookService {
    open spec fn id(&self) -> u16 {
        1
    }

    open spec fn name(&self) -> Seq<char> {
        "some_service"@
    }

    open spec fn hashes(&self, m: StoreMap) -> Seq<Seq<u8>> {
        Seq::empty()
    }

    open spec fn execute_spec(&self, tx: RawTransactionView, m: StoreMap) -> (
        Result<(), ExecutionFault>,
        StoreMap,
    ) {
        (Err(ExecutionFault::Rejected), m)
    }

    open spec fn execute_writes(&self, tx: RawTransactionView, m: StoreMap) -> Seq<ChangeView> {
        Seq::empty()
    }

    open spec fn before_commit_writes(&self, m: StoreMap) -> Seq<ChangeView> {
        match self.behaviour {
            HookBehaviour::Good => push_log(m, idx_name(), 1),
            _ => Seq::empty(),
        }
    }

    open spec fn before_commit_spec(&self, m: StoreMap) -> (Result<(), ExecutionFault>, StoreMap) {
        match self.behaviour {
            HookBehaviour::Good => good_hook_spec(m),
            HookBehaviour::Panic => (Err(ExecutionFault::Defect), m),
            HookBehaviour::PanicStorageError => (
                Err(ExecutionFault::Storage(FatalStorageError::Reported)),
                m,
            ),
        }
    }

    fn service_id(&self) -> (r: u16) {
        1
    }

    fn service_name(&self) -> (r: String) {
        "some_service".to_owned()
    }

    fn state_hash(&self, fork: &Fork) -> (r: Vec<crate::crypto::Hash>) {
        let r: Vec<crate::crypto::Hash> = Vec::new();
        assert(crate::blockchain::hash_views(r@) =~= Seq::empty());
        r
    }

    fn execute(&self, tx: &RawTransaction, fork: &mut Fork) -> (r: Result<(), ExecutionFault>) {
        proof {
            lemma_extends_refl(*fork);
        }
        Err(ExecutionFault::Rejected)
    }

    fn before_commit(&self, fork: &mut Fork) -> (r: Result<(), ExecutionFault>) {
        proof {
            lemma_extends_refl(*fork);
        }
        match self.behaviour {
            HookBehaviour::Good => {
                let index = idx();
                match index.push(fork, 1) {
                    Ok(_) => Ok(()),
                    Err(e) => Err(ExecutionFault::Storage(e)),
                }
            },
            HookBehaviour::Panic => Err(ExecutionFault::Defect),
            HookBehaviour::PanicStorageError => Err(
                ExecutionFault::Storage(FatalStorageError::Reported),
            ),
        }
    }
}

} // verus!
