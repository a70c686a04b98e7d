//! Dispatch of calls to service instances.
//!
//! A registry maps an instance id to a service. A method may end by asking
//! for a call to another instance; the runtime makes that call on the same
//! fork, and gives up with a named error once the chain of calls is longer
//! than `MAX_CALL_DEPTH`.

use crate::entry::Entry;
use crate::blockchain::{ExecutionFault, RawTransaction, RawTransactionView, Service};
use crate::storage::{
    copy_bytes, lemma_adds_trans, lemma_extends_refl, lemma_extends_trans, ChangeView, Fork,
    StoreMap,
};
use vstd::bytes::*;
use vstd::prelude::*;
use vstd::string::*;

verus! {

/// The longest chain of calls that one `execute` makes.
pub const MAX_CALL_DEPTH: u32 = 16;

/// Which method of which instance a call is for.
#[derive(Clone, Copy, Debug, PartialEq, Eq, Structural)]
pub struct CallInfo {
    pub instance_id: u32,
    pub method_id: u32,
}

/// Why a call did not succeed. None of these is fatal to a block.
#[derive(Clone, Copy, Debug, PartialEq, Eq, Structural)]
pub enum ExecutionError {
    /// No instance is registered under the id.
    InstanceNotFound,
    /// The instance has no method with the id.
    MethodNotFound,
    /// The chain of calls is longer than `MAX_CALL_DEPTH`.
    DepthExceeded,
}

/// A call that a method asks the runtime to make next.
#[derive(Clone, Debug, PartialEq, Eq)]
pub struct NestedCall {
    pub info: CallInfo,
    pub payload: Vec<u8>,
}

/// The mathematical content of a `NestedCall`.
pub struct NestedCallView {
    pub info: CallInfo,
    pub payload: Seq<u8>,
}

impl View for NestedCall {
    type V = NestedCallView;

    open spec fn view(&self) -> NestedCallView {
        NestedCallView { info: self.info, payload: self.payload@ }
    }
}

/// The view of an optional nested call.
pub open spec fn next_view(next: Option<NestedCall>) -> Option<NestedCallView> {
    match next {
        Some(c) => Some(c@),
        None => None,
    }
}

/// The result of one method: the call that it asks for, if any, or its error.
pub open spec fn call_view(r: Result<Option<NestedCall>, ExecutionError>) -> Result<
    Option<NestedCallView>,
    ExecutionError,
> {
    match r {
        Ok(next) => Ok(next_view(next)),
        Err(e) => Err(e),
    }
}

/// The dispatch table of a service.
pub trait ServiceDispatcher {
    /// Result and store contents after the method `method_id` runs.
    spec fn call_spec(&self, method_id: u32, payload: Seq<u8>, m: StoreMap) -> (
        Result<Option<NestedCallView>, ExecutionError>,
        StoreMap,
    );

    /// The writes that the method `method_id` buffers, in order.
    spec fn call_writes(&self, method_id: u32, payload: Seq<u8>, m: StoreMap) -> Seq<ChangeView>;

    /// Runs the method `method_id` with `payload` against the fork. Adds
    /// its writes to the fork's buffered writes and changes nothing else.
    fn call(&self, method_id: u32, payload: &[u8], fork: &mut Fork) -> (r: Result<
        Option<NestedCall>,
        ExecutionError,
    >)
        ensures
            final(fork).extends(*old(fork)),
            final(fork).adds(*old(fork), self.call_writes(method_id, payload@, old(fork)@)),
            (call_view(r), final(fork)@) == self.call_spec(method_id, payload@, old(fork)@),
    ;
}

/// A service registered under an instance id.
pub struct Instance<D: ServiceDispatcher> {
    pub id: u32,
    pub service: D,
}

/// The first position at or after `start` of the instance with id `id`.
pub open spec fn lookup_instance<D: ServiceDispatcher>(
    instances: Seq<Instance<D>>,
    id: u32,
    start: int,
) -> Option<int>
    decreases instances.len() - start,
{
    if start < 0 || start >= instances.len() {
        None
    } else if instances[start].id == id {
        Some(start)
    } else {
        lookup_instance(instances, id, start + 1)
    }
}

/// Result and store contents after the call `info` and every call that
/// follows from it, with `budget` calls left to make.
pub open spec fn run_calls<D: ServiceDispatcher>(
    instances: Seq<Instance<D>>,
    m: StoreMap,
    info: CallInfo,
    payload: Seq<u8>,
    budget: nat,
) -> (Result<(), ExecutionError>, StoreMap)
    decreases budget,
{
    if budget == 0 {
        (Err(ExecutionError::DepthExceeded), m)
    } else {
        match lookup_instance(instances, info.instance_id, 0) {
            None => (Err(ExecutionError::InstanceNotFound), m),
            Some(i) => {
                let done = instances[i].service.call_spec(info.method_id, payload, m);
                match done.0 {
                    Err(e) => (Err(e), done.1),
                    Ok(None) => (Ok(()), done.1),
                    Ok(Some(next)) => run_calls(
                        instances,
                        done.1,
                        next.info,
                        next.payload,
                        (budget - 1) as nat,
                    ),
                }
            },
        }
    }
}

/// The writes that the call `info` and every call that follows from it
/// buffer, in order, with `budget` calls left to make. The writes of a call
/// that fails, and of those before it, are among them.
pub open spec fn calls_log<D: ServiceDispatcher>(
    instances: Seq<Instance<D>>,
    m: StoreMap,
    info: CallInfo,
    payload: Seq<u8>,
    budget: nat,
) -> Seq<ChangeView>
    decreases budget,
{
    if budget == 0 {
        Seq::empty()
    } else {
        match lookup_instance(instances, info.instance_id, 0) {
            None => Seq::empty(),
            Some(i) => {
                let done = instances[i].service.call_spec(info.method_id, payload, m);
                let writes = instances[i].service.call_writes(info.method_id, payload, m);
                match done.0 {
                    Ok(Some(next)) => writes + calls_log(
                        instances,
                        done.1,
                        next.info,
                        next.payload,
                        (budget - 1) as nat,
                    ),
                    _ => writes,
                }
            },
        }
    }
}

/// The registry of service instances.
pub struct RustRuntime<D: ServiceDispatcher> {
    instances: Vec<Instance<D>>,
}

impl<D: ServiceDispatcher> RustRuntime<D> {
    /// The registered instances, in registration order.
    pub closed spec fn instances(&self) -> Seq<Instance<D>> {
        self.instances@
    }

    /// A runtime without instances.
    pub fn new() -> (runtime: RustRuntime<D>)
        ensures
            runtime.instances().len() == 0,
    {
        RustRuntime { instances: Vec::new() }
    }

    fn find_instance(&self, id: u32) -> (r: Option<usize>)
        ensures
            match r {
                Some(i) => i < self.instances().len() && lookup_instance(self.instances(), id, 0)
                    == Some(i as int),
                None => lookup_instance(self.instances(), id, 0).is_none(),
            },
    {
        let mut i: usize = 0;
        while i < self.instances.len()
            invariant
                i <= self.instances.len(),
                lookup_instance(self.instances@, id, 0) == lookup_instance(
                    self.instances@,
                    id,
                    i as int,
                ),
            decreases self.instances.len() - i,
        {
            if self.instances[i].id == id {
                return Some(i);
            }
            i += 1;
        }
        None
    }

    /// Registers `service` under `id` and returns `true`; returns `false`,
    /// and registers nothing, if the id is taken.
    pub fn add_service(&mut self, id: u32, service: D) -> (added: bool)
        ensures
            added == lookup_instance(old(self).instances(), id, 0).is_none(),
            added ==> final(self).instances() == old(self).instances().push(
                (Instance { id, service }),
            ),
            !added ==> final(self).instances() == old(self).instances(),
    {
        if self.find_instance(id).is_some() {
            return false;
        }
        self.instances.push(Instance { id, service });
        true
    }

    /// Whether an instance is registered under `id`.
    pub fn has_instance(&self, id: u32) -> (r: bool)
        ensures
            r == lookup_instance(self.instances(), id, 0).is_some(),
    {
        self.find_instance(id).is_some()
    }

    /// Makes the call `info` with `payload` against the fork, and then every
    /// call that a method asks for, at most `MAX_CALL_DEPTH` in all.
    pub fn execute(&self, fork: &mut Fork, info: CallInfo, payload: &[u8]) -> (r: Result<
        (),
        ExecutionError,
    >)
        ensures
            final(fork).extends(*old(fork)),
            final(fork).adds(
                *old(fork),
                calls_log(self.instances(), old(fork)@, info, payload@, MAX_CALL_DEPTH as nat),
            ),
            (r, final(fork)@) == run_calls(
                self.instances(),
                old(fork)@,
                info,
                payload@,
                MAX_CALL_DEPTH as nat,
            ),
    {
        let mut current = info;
        let mut data = copy_bytes(payload);
        let mut budget: u32 = MAX_CALL_DEPTH;
        let ghost so_far = Seq::<ChangeView>::empty();
        let ghost whole = calls_log(
            self.instances(),
            old(fork)@,
            info,
            payload@,
            MAX_CALL_DEPTH as nat,
        );
        proof {
            lemma_extends_refl(*fork);
            assert(so_far + whole =~= whole);
        }
        while budget > 0
            invariant
                fork.extends(*old(fork)),
                fork.adds(*old(fork), so_far),
                whole == calls_log(
                    self.instances(),
                    old(fork)@,
                    info,
                    payload@,
                    MAX_CALL_DEPTH as nat,
                ),
                whole == so_far + calls_log(
                    self.instances(),
                    fork@,
                    current,
                    data@,
                    budget as nat,
                ),
                run_calls(
                    self.instances(),
                    old(fork)@,
                    info,
                    payload@,
                    MAX_CALL_DEPTH as nat,
                ) == run_calls(self.instances(), fork@, current, data@, budget as nat),
            decreases budget,
        {
            let i = match self.find_instance(current.instance_id) {
                Some(i) => i,
                None => {
                    assert(so_far + Seq::<ChangeView>::empty() =~= so_far);
                    return Err(ExecutionError::InstanceNotFound);
                },
            };
            let ghost before = *fork;
            let ghost writes = self.instances()[i as int].service.call_writes(
                current.method_id,
                data@,
                before@,
            );
            let done = self.instances[i].service.call(current.method_id, data.as_slice(), fork);
            proof {
                lemma_extends_trans(*old(fork), before, *fork);
                lemma_adds_trans(*old(fork), before, *fork, so_far, writes);
                let rest = calls_log(self.instances(), before@, current, data@, budget as nat);
                assert(whole == so_far + rest);
                so_far = so_far + writes;
            }
            match done {
                Err(e) => {
                    return Err(e);
                },
                Ok(None) => {
                    return Ok(());
                },
                Ok(Some(next)) => {
                    assert(whole =~= so_far + calls_log(
                        self.instances(),
                        fork@,
                        next.info,
                        next.payload@,
                        (budget - 1) as nat,
                    ));
                    current = next.info;
                    data = next.payload;
                    budget -= 1;
                },
            }
        }
        assert(so_far + Seq::<ChangeView>::empty() =~= so_far);
        Err(ExecutionError::DepthExceeded)
    }
}

/// With no budget left nothing runs: the call fails with the error that
/// names the depth and the store stays as it was.
pub proof fn law_depth_is_bounded<D: ServiceDispatcher>(
    instances: Seq<Instance<D>>,
    m: StoreMap,
    info: CallInfo,
    payload: Seq<u8>,
)
    ensures
        run_calls(instances, m, info, payload, 0) == (
            Err::<(), ExecutionError>(ExecutionError::DepthExceeded),
            m,
        ),
{
}

/// A service whose every method writes nothing and asks for a call of its
/// target.
#[derive(Clone, Copy, Debug, PartialEq, Eq, Structural)]
pub struct Forwarder {
    pub target: CallInfo,
}

impl ServiceDispatcher for Forwarder {
    open spec fn call_spec(&self, method_id: u32, payload: Seq<u8>, m: StoreMap) -> (
        Result<Option<NestedCallView>, ExecutionError>,
        StoreMap,
    ) {
        (Ok(Some(NestedCallView { info: self.target, payload })), m)
    }

    open spec fn call_writes(&self, method_id: u32, payload: Seq<u8>, m: StoreMap) -> Seq<
        ChangeView,
    > {
        Seq::empty()
    }

    fn call(&self, method_id: u32, payload: &[u8], fork: &mut Fork) -> (r: Result<
        Option<NestedCall>,
        ExecutionError,
    >) {
        proof {
            lemma_extends_refl(*fork);
        }
        Ok(Some(NestedCall { info: self.target, payload: copy_bytes(payload) }))
    }
}

/// The name of the entry that `method_a` writes.
pub open spec fn method_a_entry() -> Seq<u8> {
    "method_a_entry".spec_bytes()
}

/// The name of the entry that `method_b` writes.
pub open spec fn method_b_entry() -> Seq<u8> {
    "method_b_entry".spec_bytes()
}

/// The write that stores `value` in the entry `name`.
pub open spec fn entry_write(name: Seq<u8>, value: u64) -> Seq<ChangeView> {
    seq![
        (ChangeView {
            name,
            key: Seq::<u8>::empty(),
            value: Some(spec_u64_to_le_bytes(value)),
        }),
    ]
}

/// A service with two methods: the first writes its entry and asks for a
/// call of the second on instance 2; the second writes its entry.
#[derive(Clone, Copy, Debug, PartialEq, Eq, Structural)]
pub struct TestServiceImpl;

impl TestServiceImpl {
    /// Stores 1 in the entry of `method_a`, then asks for method 1 of
    /// instance 2 with a payload of one zero byte.
    pub fn method_a(&self, fork: &mut Fork, arg: &[u8]) -> (r: Result<
        Option<NestedCall>,
        ExecutionError,
    >)
        ensures
            final(fork).extends(*old(fork)),
            final(fork).adds(*old(fork), entry_write(method_a_entry(), 1)),
            final(fork)@ == old(fork)@.insert(
                (method_a_entry(), Seq::<u8>::empty()),
                spec_u64_to_le_bytes(1),
            ),
            call_view(r) == Ok::<Option<NestedCallView>, ExecutionError>(
                Some(
                    NestedCallView {
                        info: CallInfo { instance_id: 2, method_id: 1 },
                        payload: seq![0u8],
                    },
                ),
            ),
    {
        let entry = Entry::new("method_a_entry");
        entry.set(fork, 1);
        let dispatch_info = CallInfo { instance_id: 2, method_id: 1 };
        let payload: Vec<u8> = vec![0u8];
        assert(payload@ =~= seq![0u8]);
        Ok(Some(NestedCall { info: dispatch_info, payload }))
    }

    /// Stores 2 in the entry of `method_b`.
    pub fn method_b(&self, fork: &mut Fork, arg: &[u8]) -> (r: Result<
        Option<NestedCall>,
        ExecutionError,
    >)
        ensures
            final(fork).extends(*old(fork)),
            final(fork).adds(*old(fork), entry_write(method_b_entry(), 2)),
            final(fork)@ == old(fork)@.insert(
                (method_b_entry(), Seq::<u8>::empty()),
                spec_u64_to_le_bytes(2),
            ),
            call_view(r) == Ok::<Option<NestedCallView>, ExecutionError>(None),
    {
        let entry = Entry::new("method_b_entry");
        entry.set(fork, 2);
        Ok(None)
    }
}

impl ServiceDispatcher for TestServiceImpl {
    open spec fn call_spec(&self, method_id: u32, payload: Seq<u8>, m: StoreMap) -> (
        Result<Option<NestedCallView>, ExecutionError>,
        StoreMap,
    ) {
        if method_id == 0 {
            (
                Ok(
                    Some(
                        NestedCallView {
                            info: CallInfo { instance_id: 2, method_id: 1 },
                            payload: seq![0u8],
                        },
                    ),
                ),
                m.insert((method_a_entry(), Seq::<u8>::empty()), spec_u64_to_le_bytes(1)),
            )
        } else if method_id == 1 {
            (Ok(None), m.insert((method_b_entry(), Seq::<u8>::empty()), spec_u64_to_le_bytes(2)))
        } else {
            (Err(ExecutionError::MethodNotFound), m)
        }
    }

    open spec fn call_writes(&self, method_id: u32, payload: Seq<u8>, m: StoreMap) -> Seq<
        ChangeView,
    > {
        if method_id == 0 {
            entry_write(method_a_entry(), 1)
        } else if method_id == 1 {
            entry_write(method_b_entry(), 2)
        } else {
            Seq::empty()
        }
    }

    fn call(&self, method_id: u32, payload: &[u8], fork: &mut Fork) -> (r: Result<
        Option<NestedCall>,
        ExecutionError,
    >) {
        proof {
            lemma_extends_refl(*fork);
        }
        if method_id == 0 {
            self.method_a(fork, payload)
        } else if method_id == 1 {
            self.method_b(fork, payload)
        } else {
            Err(ExecutionError::MethodNotFound)
        }
    }
}

/// The fault that a failed call is recorded as in a block.
pub open spec fn fault_of(e: ExecutionError) -> ExecutionFault {
    match e {
        ExecutionError::DepthExceeded => ExecutionFault::DepthExceeded,
        _ => ExecutionFault::NotFound,
    }
}

/// The call that a transaction stands for: the method with the
/// transaction's message id, of the instance with the service's id.
pub open spec fn call_of(id: u16, tx: RawTransactionView) -> CallInfo {
    CallInfo { instance_id: id as u32, method_id: tx.message_id as u32 }
}

/// A runtime as a service of the block pipeline: a transaction for the
/// service is a call of the instance with the service's id. A call that
/// fails is a failure of the transaction, so the pipeline discards every
/// write of the chain of calls.
pub struct RuntimeService<D: ServiceDispatcher> {
    pub id: u16,
    pub runtime: RustRuntime<D>,
}

impl<D: ServiceDispatcher> Service for RuntimeService<D> {
    open spec fn id(&self) -> u16 {
        self.id
    }

    open spec fn name(&self) -> Seq<char> {
        "runtime"@
    }

    open spec fn hashes(&self, m: StoreMap) -> Seq<Seq<u8>> {
        Seq::empty()
    }

    open spec fn execute_spec(&self, tx: RawTransactionView, m: StoreMap) -> (
        Result<(), ExecutionFault>,
        StoreMap,
    ) {
        let done = run_calls(
            self.runtime.instances(),
            m,
            call_of(self.id, tx),
            tx.payload,
            MAX_CALL_DEPTH as nat,
        );
        (
            match done.0 {
                Ok(_) => Ok(()),
                Err(e) => Err(fault_of(e)),
            },
            done.1,
        )
    }

    open spec fn execute_writes(&self, tx: RawTransactionView, m: StoreMap) -> Seq<ChangeView> {
        calls_log(
            self.runtime.instances(),
            m,
            call_of(self.id, tx),
            tx.payload,
            MAX_CALL_DEPTH as nat,
        )
    }

    open spec fn before_commit_spec(&self, m: StoreMap) -> (Result<(), ExecutionFault>, StoreMap) {
        (Ok(()), m)
    }

    open spec fn before_commit_writes(&self, m: StoreMap) -> Seq<ChangeView> {
        Seq::empty()
    }

    fn service_id(&self) -> (r: u16) {
        self.id
    }

    fn service_name(&self) -> (r: String) {
        "runtime".to_owned()
    }

    fn state_hash(&self, fork: &Fork) -> (r: Vec<crate::crypto::Hash>) {
        let r: Vec<crate::crypto::Hash> = Vec::new();
        assert(crate::blockchain::hash_views(r@) =~= Seq::empty());
        r
    }

    fn execute(&self, tx: &RawTransaction, fork: &mut Fork) -> (r: Result<(), ExecutionFault>) {
        let info = CallInfo { instance_id: self.id as u32, method_id: tx.message_id as u32 };
        match self.runtime.execute(fork, info, tx.payload.as_slice()) {
            Ok(_) => Ok(()),
            Err(ExecutionError::DepthExceeded) => Err(ExecutionFault::DepthExceeded),
            Err(_) => Err(ExecutionFault::NotFound),
        }
    }

    fn before_commit(&self, fork: &mut Fork) -> (r: Result<(), ExecutionFault>) {
        proof {
            lemma_extends_refl(*fork);
        }
        Ok(())
    }
}

} // verus!
