//! The listener that builds call lists.

pub mod effects;
pub mod laws;
pub mod model;
pub mod paths;
pub mod tree;

use std::collections::BTreeMap;
use vstd::prelude::*;

use crate::calls::{
    call_result, create_result, utf8_bytes, Call, CallInner, CallResult, CallType, CallView,
    ContextType, CreateResult,
};
use crate::events::{Event, EvmEvent, GasometerEvent, RuntimeEvent, StepEventFilter};
use crate::types::{h160_repeat_byte, u256_from_u64, Capture, ExitReason, Snapshot, H160, U256};

use self::model::{ClState, ContextView, TracingVersion};

verus! {

broadcast use {vstd::laws_cmp::group_laws_cmp, vstd::std_specs::btree::group_btree_axioms};

/// Builds the call lists of the transactions whose events it is given.
///
/// A context is opened by a call, a creation or a transaction, and closed by its exit; then its
/// entry is added to the last list, under the key that it got when it was opened.
pub struct ListenerCl {
    /// The lists.
    pub entries: Vec<BTreeMap<u32, Call>>,
    /// What is known of the transaction that runs.
    pub progress: Progress,
}

/// What is known of the transaction that runs.
pub struct Progress {
    /// Kind of event stream. Taken for `Legacy` until an event shows that it is not.
    version: TracingVersion,
    /// Cost of the transaction itself, which counts for the first context.
    transaction_cost: u64,
    /// Key of the next entry.
    entries_next_index: u32,
    /// The open contexts, the innermost last.
    context_stack: Vec<Context>,
    /// Kind of the next call, if a trap of the transaction has announced one. The root call has
    /// no trap.
    call_type: Option<CallType>,
    /// `EvmEvent::TransactX` opens a context, and so would the `EvmEvent::Call` or
    /// `EvmEvent::Create` that follows it: this one is to be skipped.
    skip_next_context: bool,
    /// Entry made when the step that ends its context was seen. It is added at the
    /// `EvmEvent::Exit` that follows or, if none does, when the transaction is over, unless the
    /// entry of another context has taken its place.
    step_result_entry: Option<(u32, Call)>,
    /// `Event::CallListNew` stands before each transaction but ends the one before: the first is
    /// to be ignored.
    call_list_first_transaction: bool,
    /// Whether `GasometerEvent::RecordTransaction` is all that is known of the transaction, as
    /// when it cannot pay for its own data.
    record_transaction_event_only: bool,
    /// Whether a call, a creation or an exit of the transaction is known.
    transaction_known: bool,
}

/// An open context.
struct Context {
    entries_index: u32,
    context_type: ContextType,
    from: H160,
    trace_address: Vec<u32>,
    subtraces: u32,
    value: U256,
    gas: u64,
    start_gas: Option<u64>,
    data: Vec<u8>,
    to: H160,
}

impl View for Context {
    type V = ContextView;

    closed spec fn view(&self) -> ContextView {
        ContextView {
            entries_index: self.entries_index,
            context_type: self.context_type,
            from: self.from,
            trace_address: self.trace_address@,
            subtraces: self.subtraces,
            value: self.value@,
            gas: self.gas,
            start_gas: self.start_gas,
            data: self.data@,
            to: self.to,
        }
    }
}

/// The lists as mathematical values.
pub open spec fn entries_view(entries: Seq<BTreeMap<u32, Call>>) -> Seq<Map<u32, CallView>> {
    entries.map_values(|list: BTreeMap<u32, Call>| list@.map_values(|call: Call| call@))
}

/// An entry and its key as a mathematical value.
pub open spec fn keyed_view(entry: Option<(u32, Call)>) -> Option<(u32, CallView)> {
    match entry {
        Some((key, call)) => Some((key, call@)),
        None => None,
    }
}

impl View for Progress {
    type V = ClState;

    /// The state of the listener but for its lists.
    closed spec fn view(&self) -> ClState {
        ClState {
            version: self.version,
            transaction_cost: self.transaction_cost,
            entries: Seq::empty(),
            entries_next_index: self.entries_next_index,
            context_stack: self.context_stack@.map_values(|context: Context| context@),
            call_type: self.call_type,
            skip_next_context: self.skip_next_context,
            step_result_entry: keyed_view(self.step_result_entry),
            call_list_first_transaction: self.call_list_first_transaction,
            record_transaction_event_only: self.record_transaction_event_only,
            transaction_known: self.transaction_known,
        }
    }
}

impl View for ListenerCl {
    type V = ClState;

    open spec fn view(&self) -> ClState {
        ClState { entries: entries_view(self.entries@), ..self.progress@ }
    }
}

/// What the field `entries` holds is what the contracts say of the lists.
pub proof fn entries_are_lists(listener: ListenerCl)
    ensures
        listener@.entries == entries_view(listener.entries@),
        listener@.entries.len() == listener.entries@.len(),
        forall|list: int, key: u32|
            #![trigger listener.entries@[list]@.contains_key(key)]
            0 <= list < listener.entries@.len() ==> listener@.entries[list].contains_key(key)
                == listener.entries@[list]@.contains_key(key),
        forall|list: int, key: u32|
            #![trigger listener.entries@[list]@[key]]
            0 <= list < listener.entries@.len() && listener.entries@[list]@.contains_key(key)
                ==> listener@.entries[list][key] == listener.entries@[list]@[key]@,
{
}

impl Default for ListenerCl {
    /// A listener that has seen no event.
    fn default() -> (r: Self)
        ensures
            r@ == ClState::initial(),
            r@.wf(),
    {
        let progress = Progress {
            version: TracingVersion::Legacy,
            transaction_cost: 0,
            entries_next_index: 0,
            context_stack: Vec::new(),
            call_type: None,
            step_result_entry: None,
            skip_next_context: false,
            call_list_first_transaction: true,
            record_transaction_event_only: false,
            transaction_known: false,
        };
        let r = ListenerCl { entries: Vec::new(), progress };
        assert(r@.entries =~= Seq::empty());
        assert(r@.context_stack =~= Seq::empty());
        r
    }
}

impl ListenerCl {
    /// Adds an entry to the last list, and starts the first list if there is none.
    fn insert_entry(&mut self, key: u32, entry: Call)
        ensures
            final(self)@ == old(self)@.insert_entry(key, entry@),
    {
        if let Some(last) = self.entries.last_mut() {
            last.insert(key, entry);
        } else {
            let mut list: BTreeMap<u32, Call> = BTreeMap::new();
            list.insert(key, entry);
            self.entries.push(list);
        }
        proof {
            let before = old(self)@.insert_entry(key, entry@);
            if old(self).entries@.len() > 0 {
                let last = old(self).entries@.last()@;
                assert(last.insert(key, entry).map_values(|call: Call| call@)
                    =~= last.map_values(|call: Call| call@).insert(key, entry@));
            } else {
                assert(Map::<u32, Call>::empty().insert(key, entry).map_values(|call: Call| call@)
                    =~= Map::<u32, CallView>::empty().insert(key, entry@));
            }
            assert(self@.entries =~= before.entries);
            assert(self@ == before);
        }
    }

    /// Notes that a call, a creation or an exit of the transaction is known.
    fn set_known(&mut self)
        ensures
            final(self)@ == old(self)@.known(),
    {
        self.progress.record_transaction_event_only = false;
        self.progress.transaction_known = true;
    }

    /// Closes the innermost context, if any, and makes its entry.
    fn pop_context_to_entry(&mut self, reason: ExitReason, return_value: Vec<u8>) -> (r: Option<
        (u32, Call),
    >)
        requires
            old(self)@.can_pop(),
        ensures
            final(self)@ == old(self)@.pop_context(reason, return_value@).0,
            keyed_view(r) == old(self)@.pop_context(reason, return_value@).1,
    {
        let popped = self.progress.context_stack.pop();
        proof {
            assert(self@.context_stack =~= old(self)@.pop_context(
                reason,
                return_value@,
            ).0.context_stack);
        }
        if let Some(context) = popped {
            assert(context@ == old(self)@.context_stack.last());
            let mut gas_used: u64 = context.start_gas.unwrap_or(0) - context.gas;
            if context.entries_index == 0 {
                gas_used = gas_used + self.progress.transaction_cost;
            }
            let entries_index: u32 = context.entries_index;
            let inner = match context.context_type {
                ContextType::Call(call_type) => CallInner::Call {
                    call_type,
                    to: context.to,
                    input: context.data,
                    res: call_result(&reason, return_value),
                },
                ContextType::Create => CallInner::Create {
                    init: context.data,
                    res: create_result(&reason, context.to, return_value),
                },
            };
            Some(
                (
                    entries_index,
                    Call {
                        from: context.from,
                        trace_address: context.trace_address,
                        subtraces: context.subtraces,
                        value: context.value,
                        gas: u256_from_u64(context.gas),
                        gas_used: u256_from_u64(gas_used),
                        inner,
                    },
                ),
            )
        } else {
            None
        }
    }

    /// Called at the end of each transaction. The entry that still waits for `EvmEvent::Exit`, if
    /// there is one, is added, so that this event may be missing after the last step that ends a
    /// context. Only one entry can wait: where transactions are announced and a second such step
    /// comes without that event in between, its entry has replaced the one before, which is not
    /// added. A context that is still open was cut short: the outermost one gets an entry, and
    /// those inside it are dropped. A transaction of which nothing but its cost is known gets an
    /// entry that says so. Of a transaction that comes after it nothing is known yet.
    pub fn finish_transaction(&mut self)
        requires
            old(self)@.wf(),
            old(self)@.admits_finish(),
        ensures
            final(self)@ == old(self)@.finish(),
            final(self)@.wf(),
    {
        proof {
            laws::finish_wf(self@);
        }
        if let Some((key, entry)) = self.progress.step_result_entry.take() {
            self.insert_entry(key, entry);
        }
        self.progress.transaction_known = false;
        assert(self@ == (ClState { transaction_known: false, ..old(self)@.add_waiting() }));
        let mut context_stack: Vec<Context> = Vec::new();
        std::mem::swap(&mut self.progress.context_stack, &mut context_stack);
        assert(self@.context_stack =~= Seq::empty());
        if context_stack.len() > 0 {
            let context = context_stack.swap_remove(0);
            assert(context@ == old(self)@.context_stack[0]);
            let mut gas_used: u64 = context.start_gas.unwrap_or(0) - context.gas;
            if context.entries_index == 0 {
                gas_used = gas_used + self.progress.transaction_cost;
            }
            let message: Vec<u8> = utf8_bytes(
                "early exit (out of gas, stack overflow, direct call to precompile, ...)",
            );
            let entries_index: u32 = context.entries_index;
            let inner = match context.context_type {
                ContextType::Call(call_type) => CallInner::Call {
                    call_type,
                    to: context.to,
                    input: context.data,
                    res: CallResult::Error(message),
                },
                ContextType::Create => CallInner::Create {
                    init: context.data,
                    res: CreateResult::Error { error: message },
                },
            };
            let entry = Call {
                from: context.from,
                trace_address: context.trace_address,
                subtraces: context.subtraces,
                value: context.value,
                gas: u256_from_u64(context.gas),
                gas_used: u256_from_u64(gas_used),
                inner,
            };
            self.insert_entry(entries_index, entry);
            // Only this entry is kept.
            self.progress.entries_next_index = entries_index + 1;
        } else if self.progress.record_transaction_event_only {
            assert(self@.context_stack =~= old(self)@.context_stack);
            let entry = Call {
                from: h160_repeat_byte(0),
                trace_address: Vec::new(),
                subtraces: 0,
                value: U256::zero(),
                gas: U256::zero(),
                gas_used: U256::zero(),
                inner: CallInner::Call {
                    call_type: CallType::Call,
                    to: h160_repeat_byte(0),
                    input: Vec::new(),
                    res: CallResult::Error(
                        utf8_bytes(
                            "transaction could not pay its own data cost (impossible to gather more info)",
                        ),
                    ),
                },
            };
            let key: u32 = self.progress.entries_next_index;
            self.insert_entry(key, entry);
            self.progress.entries_next_index = self.progress.entries_next_index + 1;
        } else {
            assert(self@.context_stack =~= old(self)@.context_stack);
        }
    }

    /// Notes the gas left in the innermost context.
    fn note_gas(&mut self, snapshot: Snapshot)
        requires
            old(self)@.admits_snapshot(snapshot),
        ensures
            final(self)@ == old(self)@.note_gas(snapshot.gas_left()),
    {
        if let Some(context) = self.progress.context_stack.last_mut() {
            let gas: u64 = snapshot.gas();
            if context.start_gas.is_none() {
                context.start_gas = Some(gas);
            }
            context.gas = gas;
        }
        assert(self@.context_stack =~= old(self)@.note_gas(snapshot.gas_left()).context_stack);
    }

    /// Takes in an event of the gasometer.
    pub fn gasometer_event(&mut self, event: GasometerEvent)
        requires
            old(self)@.wf(),
            old(self)@.admits_gasometer(event),
        ensures
            final(self)@ == old(self)@.gasometer_step(event),
            final(self)@.wf(),
    {
        proof {
            laws::gasometer_step_wf(self@, event);
        }
        match event {
            GasometerEvent::RecordCost { snapshot, .. } => self.note_gas(snapshot),
            GasometerEvent::RecordDynamicCost { snapshot, .. } => self.note_gas(snapshot),
            GasometerEvent::RecordStipend { snapshot, .. } => self.note_gas(snapshot),
            GasometerEvent::RecordTransaction { cost, .. } => {
                self.progress.transaction_cost = cost;
                self.progress.record_transaction_event_only = !self.progress.transaction_known;
            },
            GasometerEvent::RecordRefund { .. } => (),
        }
    }

    /// Takes in an event of the machine that runs the code.
    pub fn runtime_event(&mut self, event: RuntimeEvent)
        requires
            old(self)@.wf(),
            old(self)@.admits_runtime(event),
        ensures
            final(self)@ == old(self)@.runtime_step(event),
            final(self)@.wf(),
    {
        proof {
            laws::runtime_step_wf(self@, event);
        }
        match event {
            RuntimeEvent::StepResult { result: Err(Capture::Trap(opcode)), .. } => {
                if let Some(ContextType::Call(call_type)) = ContextType::from(opcode) {
                    self.progress.call_type = Some(call_type);
                }
            },
            RuntimeEvent::StepResult { result: Err(Capture::Exit(reason)), return_value } => {
                if let Some((key, entry)) = self.pop_context_to_entry(reason, return_value) {
                    match self.progress.version {
                        TracingVersion::Legacy => self.insert_entry(key, entry),
                        TracingVersion::EarlyTransact => {
                            self.progress.step_result_entry = Some((key, entry));
                        },
                    }
                }
            },
            _ => (),
        }
    }

    /// Counts one more entry below the innermost context, and gives its path.
    fn next_trace_address(&mut self) -> (r: Vec<u32>)
        requires
            old(self)@.has_room(),
        ensures
            r@ == old(self)@.child_path(),
            final(self)@ == old(self)@.count_child(),
    {
        let r: Vec<u32> = if let Some(context) = self.progress.context_stack.last_mut() {
            let mut trace_address: Vec<u32> = context.trace_address.clone();
            trace_address.push(context.subtraces);
            context.subtraces = context.subtraces + 1;
            trace_address
        } else {
            Vec::new()
        };
        assert(self@.context_stack =~= old(self)@.count_child().context_stack);
        assert(r@ =~= old(self)@.child_path());
        r
    }

    /// Opens a context under the next key.
    fn push_context(
        &mut self,
        context_type: ContextType,
        from: H160,
        trace_address: Vec<u32>,
        value: U256,
        data: Vec<u8>,
        to: H160,
    )
        requires
            old(self)@.entries_next_index < u32::MAX,
        ensures
            final(self)@ == old(self)@.push_context(
                context_type,
                from,
                trace_address@,
                value@,
                data@,
                to,
            ),
    {
        self.progress.context_stack.push(
            Context {
                entries_index: self.progress.entries_next_index,
                context_type,
                from,
                trace_address,
                subtraces: 0,
                value,
                gas: 0,
                start_gas: None,
                data,
                to,
            },
        );
        self.progress.entries_next_index = self.progress.entries_next_index + 1;
        assert(self@.context_stack =~= old(self)@.push_context(
            context_type,
            from,
            trace_address@,
            value@,
            data@,
            to,
        ).context_stack);
    }

    /// A transaction opens its root context.
    fn open_root(
        &mut self,
        context_type: ContextType,
        from: H160,
        value: U256,
        data: Vec<u8>,
        to: H160,
    )
        requires
            old(self)@.entries_next_index < u32::MAX,
        ensures
            final(self)@ == old(self)@.open_root(context_type, from, value@, data@, to),
    {
        self.set_known();
        self.progress.version = TracingVersion::EarlyTransact;
        self.push_context(context_type, from, Vec::new(), value, data, to);
        self.progress.skip_next_context = true;
    }

    /// A call or creation opens a context, unless it belongs to the one that is open already.
    fn open_child(
        &mut self,
        context_type: ContextType,
        from: H160,
        value: U256,
        data: Vec<u8>,
        to: H160,
    )
        requires
            !old(self)@.skip_next_context ==> old(self)@.has_room(),
        ensures
            final(self)@ == old(self)@.open_child(context_type, from, value@, data@, to),
    {
        self.set_known();
        if !self.progress.skip_next_context {
            let trace_address: Vec<u32> = self.next_trace_address();
            self.push_context(context_type, from, trace_address, value, data, to);
        } else {
            self.progress.skip_next_context = false;
        }
    }

    /// Adds the entry of an account that is destroyed.
    fn destroy(&mut self, address: H160, target: H160, balance: U256)
        requires
            old(self)@.has_room(),
        ensures
            final(self)@ == old(self)@.destroy(address, target, balance@),
    {
        let trace_address: Vec<u32> = self.next_trace_address();
        let key: u32 = self.progress.entries_next_index;
        let entry = Call {
            from: address,
            trace_address,
            subtraces: 0,
            value: U256::zero(),
            gas: U256::zero(),
            gas_used: U256::zero(),
            inner: CallInner::SelfDestruct { to: target, balance },
        };
        self.insert_entry(key, entry);
        self.progress.entries_next_index = self.progress.entries_next_index + 1;
    }

    /// Adds the entry of a context that ends.
    fn exit(&mut self, reason: ExitReason, return_value: Vec<u8>)
        requires
            old(self)@.step_result_entry is None ==> old(self)@.can_pop(),
        ensures
            final(self)@ == old(self)@.exit(reason, return_value@),
    {
        self.set_known();
        let entry: Option<(u32, Call)> = match self.progress.step_result_entry.take() {
            Some(entry) => Some(entry),
            None => self.pop_context_to_entry(reason, return_value),
        };
        if let Some((key, entry)) = entry {
            self.insert_entry(key, entry);
        }
    }

    /// Takes in an event of the machinery around the contexts.
    pub fn evm_event(&mut self, event: EvmEvent)
        requires
            old(self)@.wf(),
            old(self)@.admits_evm(event),
        ensures
            final(self)@ == old(self)@.evm_step(event),
            final(self)@.wf(),
    {
        proof {
            laws::evm_step_wf(self@, event);
        }
        match event {
            EvmEvent::TransactCall { caller, address, value, data, .. } => self.open_root(
                ContextType::Call(CallType::Call),
                caller,
                value,
                data,
                address,
            ),
            EvmEvent::TransactCreate { caller, value, init_code, address, .. } => self.open_root(
                ContextType::Create,
                caller,
                value,
                init_code,
                address,
            ),
            EvmEvent::TransactCreate2 { caller, value, init_code, address, .. } => self.open_root(
                ContextType::Create,
                caller,
                value,
                init_code,
                address,
            ),
            EvmEvent::Call { code_address, input, is_static, context, .. } => {
                let call_type: CallType = match (self.progress.call_type, is_static) {
                    (None, true) => CallType::StaticCall,
                    (None, false) => CallType::Call,
                    (Some(call_type), _) => call_type,
                };
                let from: H160 = match self.progress.context_stack.last() {
                    Some(parent_context) => parent_context.to,
                    None => context.caller,
                };
                self.open_child(
                    ContextType::Call(call_type),
                    from,
                    context.apparent_value,
                    input,
                    code_address,
                );
            },
            EvmEvent::Create { caller, address, value, init_code, .. } => self.open_child(
                ContextType::Create,
                caller,
                value,
                init_code,
                address,
            ),
            EvmEvent::Suicide { address, target, balance } => self.destroy(
                address,
                target,
                balance,
            ),
            EvmEvent::Exit { reason, return_value } => self.exit(reason, return_value),
            EvmEvent::PrecompileSubcall { .. } => {
                self.progress.call_type = Some(CallType::Call);
            },
        }
    }

    /// Takes in an event.
    pub fn event(&mut self, event: Event)
        requires
            old(self)@.wf(),
            old(self)@.admits(event),
        ensures
            final(self)@ == old(self)@.step(event),
            final(self)@.wf(),
    {
        match event {
            Event::Gasometer(gasometer_event) => self.gasometer_event(gasometer_event),
            Event::Runtime(runtime_event) => self.runtime_event(runtime_event),
            Event::Evm(evm_event) => self.evm_event(evm_event),
            Event::CallListNew() => {
                if !self.progress.call_list_first_transaction {
                    self.finish_transaction();
                    self.progress.skip_next_context = false;
                    self.progress.call_type = None;
                    self.progress.record_transaction_event_only = false;
                    self.entries.push(BTreeMap::new());
                    proof {
                        assert(Map::<u32, Call>::empty().map_values(|call: Call| call@)
                            =~= Map::<u32, CallView>::empty());
                        assert(self@.entries =~= old(self)@.step(event).entries);
                    }
                } else {
                    self.progress.call_list_first_transaction = false;
                }
            },
        }
    }

    /// Neither the memory nor the stack is needed.
    pub fn step_event_filter(&self) -> (r: StepEventFilter)
        ensures
            r == (StepEventFilter { enable_memory: false, enable_stack: false }),
    {
        StepEventFilter { enable_memory: false, enable_stack: false }
    }

    /// Whether the gas used by a context can be told.
    fn is_gas_countable(&self, context: &Context) -> (r: bool)
        ensures
            r == context@.gas_countable(self@.transaction_cost),
    {
        let start_gas: u64 = context.start_gas.unwrap_or(0);
        context.gas <= start_gas && (context.entries_index != 0 || start_gas - context.gas
            <= u64::MAX - self.progress.transaction_cost)
    }

    /// Whether [`ListenerCl::finish_transaction`] may be called.
    pub fn can_finish(&self) -> (r: bool)
        ensures
            r == self@.admits_finish(),
    {
        if self.progress.context_stack.len() > 0 {
            self.is_gas_countable(&self.progress.context_stack[0])
        } else {
            !self.progress.record_transaction_event_only || self.progress.entries_next_index < u32::MAX
        }
    }

    /// Whether there is room for another entry.
    fn room_left(&self) -> (r: bool)
        ensures
            r == self@.has_room(),
    {
        self.progress.entries_next_index < u32::MAX && match self.progress.context_stack.last() {
            Some(context) => context.subtraces < u32::MAX,
            None => true,
        }
    }

    /// Whether the innermost context, if any, can be closed.
    fn is_last_countable(&self) -> (r: bool)
        ensures
            r == self@.can_pop(),
    {
        match self.progress.context_stack.last() {
            Some(context) => self.is_gas_countable(context),
            None => true,
        }
    }

    /// Whether the event can be taken in: no counter would overflow, and no gas is missing.
    pub fn can_take(&self, event: &Event) -> (r: bool)
        ensures
            r == self@.admits(*event),
    {
        match event {
            Event::Gasometer(event) => match event {
                GasometerEvent::RecordCost { snapshot, .. } => self.progress.context_stack.len() == 0
                    || snapshot.is_solvent(),
                GasometerEvent::RecordDynamicCost { snapshot, .. } => self.progress.context_stack.len() == 0
                    || snapshot.is_solvent(),
                GasometerEvent::RecordStipend { snapshot, .. } => self.progress.context_stack.len() == 0
                    || snapshot.is_solvent(),
                GasometerEvent::RecordTransaction { .. } => true,
                GasometerEvent::RecordRefund { .. } => true,
            },
            Event::Runtime(event) => match event {
                RuntimeEvent::StepResult { result: Err(Capture::Exit(_)), .. } =>
                    self.is_last_countable(),
                _ => true,
            },
            Event::Evm(event) => match event {
                EvmEvent::TransactCall { .. } => self.progress.entries_next_index < u32::MAX,
                EvmEvent::TransactCreate { .. } => self.progress.entries_next_index < u32::MAX,
                EvmEvent::TransactCreate2 { .. } => self.progress.entries_next_index < u32::MAX,
                EvmEvent::Call { .. } => self.progress.skip_next_context || self.room_left(),
                EvmEvent::Create { .. } => self.progress.skip_next_context || self.room_left(),
                EvmEvent::Suicide { .. } => self.room_left(),
                EvmEvent::Exit { .. } => self.progress.step_result_entry.is_some()
                    || self.is_last_countable(),
                EvmEvent::PrecompileSubcall { .. } => true,
            },
            Event::CallListNew() => self.progress.call_list_first_transaction || self.can_finish(),
        }
    }
}

} // verus!
