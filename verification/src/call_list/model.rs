//! The state of a [`ListenerCl`](super::ListenerCl) as a mathematical value, and what each event
//! does to it.

use vstd::prelude::*;
use vstd::utf8::encode_utf8;

use crate::calls::{
    call_result_view, context_type_of, create_result_view, CallInnerView, CallResultView,
    CallType, CallView, ContextType, CreateResultView,
};
use crate::events::{Event, EvmEvent, GasometerEvent, RuntimeEvent};
use crate::types::{Capture, ExitReason, Snapshot, H160};

verus! {

/// The kind of event stream, which depends on the version of the runtime.
#[derive(Clone, Copy, Debug, PartialEq, Eq, Structural)]
pub enum TracingVersion {
    /// The first event of a transaction is `EvmEvent::TransactX`, and there are others such as
    /// `EvmEvent::Exit`: each context has a clear start and a clear end.
    EarlyTransact,
    /// These events are missing.
    Legacy,
}

/// An open context.
pub ghost struct ContextView {
    /// Key of its entry.
    pub entries_index: u32,
    /// What it was opened for.
    pub context_type: ContextType,
    /// Account that opened it.
    pub from: H160,
    /// Path from the root context to this one.
    pub trace_address: Seq<u32>,
    /// Number of entries directly below it so far.
    pub subtraces: u32,
    /// Value transferred.
    pub value: nat,
    /// Gas left when the gasometer last spoke.
    pub gas: u64,
    /// Gas left when the gasometer first spoke.
    pub start_gas: Option<u64>,
    /// Input of the call, or code that creates the contract.
    pub data: Seq<u8>,
    /// Account called or created.
    pub to: H160,
}

/// Message of the entry of a transaction that was cut short.
pub open spec fn early_exit_message() -> Seq<u8> {
    encode_utf8("early exit (out of gas, stack overflow, direct call to precompile, ...)"@)
}

/// Message of the entry of a transaction that opened no context at all.
pub open spec fn unpaid_message() -> Seq<u8> {
    encode_utf8("transaction could not pay its own data cost (impossible to gather more info)"@)
}

impl ContextView {
    /// Gas used by the context. The cost of the transaction itself counts for the first context
    /// of all.
    pub open spec fn gas_used(self, transaction_cost: u64) -> int {
        self.start_gas.unwrap_or(0) - self.gas + if self.entries_index == 0 {
            transaction_cost as int
        } else {
            0
        }
    }

    /// Whether the gas did not grow while the context was open, and the gas used is a 64-bit
    /// number.
    pub open spec fn gas_countable(self, transaction_cost: u64) -> bool {
        &&& self.gas <= self.start_gas.unwrap_or(0)
        &&& self.gas_used(transaction_cost) <= u64::MAX
    }

    /// The entry of the context.
    pub open spec fn entry(self, transaction_cost: u64, inner: CallInnerView) -> CallView {
        CallView {
            from: self.from,
            trace_address: self.trace_address,
            subtraces: self.subtraces,
            value: self.value,
            gas: self.gas as nat,
            gas_used: self.gas_used(transaction_cost) as nat,
            inner,
        }
    }

    /// The entry of the context when it ends for the given reason.
    pub open spec fn exit_entry(
        self,
        transaction_cost: u64,
        reason: ExitReason,
        return_value: Seq<u8>,
    ) -> CallView {
        self.entry(
            transaction_cost,
            match self.context_type {
                ContextType::Call(call_type) => CallInnerView::Call {
                    call_type,
                    to: self.to,
                    input: self.data,
                    res: call_result_view(reason, return_value),
                },
                ContextType::Create => CallInnerView::Create {
                    init: self.data,
                    res: create_result_view(reason, self.to, return_value),
                },
            },
        )
    }

    /// The entry of the context when its transaction was cut short.
    pub open spec fn early_exit_entry(self, transaction_cost: u64) -> CallView {
        self.entry(
            transaction_cost,
            match self.context_type {
                ContextType::Call(call_type) => CallInnerView::Call {
                    call_type,
                    to: self.to,
                    input: self.data,
                    res: CallResultView::Error(early_exit_message()),
                },
                ContextType::Create => CallInnerView::Create {
                    init: self.data,
                    res: CreateResultView::Error(early_exit_message()),
                },
            },
        )
    }
}

/// The entry of a transaction that opened no context at all.
pub open spec fn unpaid_entry() -> CallView {
    CallView {
        from: (0, 0),
        trace_address: Seq::empty(),
        subtraces: 0,
        value: 0,
        gas: 0,
        gas_used: 0,
        inner: CallInnerView::Call {
            call_type: CallType::Call,
            to: (0, 0),
            input: Seq::empty(),
            res: CallResultView::Error(unpaid_message()),
        },
    }
}

/// The state of the listener.
pub ghost struct ClState {
    /// Kind of event stream, as far as it is known.
    pub version: TracingVersion,
    /// Cost of the transaction itself.
    pub transaction_cost: u64,
    /// The lists of entries.
    pub entries: Seq<Map<u32, CallView>>,
    /// Key of the next entry.
    pub entries_next_index: u32,
    /// The open contexts, the innermost last.
    pub context_stack: Seq<ContextView>,
    /// Kind of the next call, if a trap has announced it.
    pub call_type: Option<CallType>,
    /// Whether the next call or creation belongs to the context that is open already.
    pub skip_next_context: bool,
    /// Entry that waits for the end of its context to be announced.
    pub step_result_entry: Option<(u32, CallView)>,
    /// Whether no transaction has been announced yet.
    pub call_list_first_transaction: bool,
    /// Whether nothing but its cost is known of the transaction.
    pub record_transaction_event_only: bool,
    /// Whether a call, a creation or an exit of the transaction is known.
    pub transaction_known: bool,
}

/// Whether `child` was opened from `parent`, the last of those that were so far: its path
/// continues that of `parent`. Transactions start anew, with an empty path.
pub open spec fn continues(parent: ContextView, child: ContextView) -> bool {
    ||| child.trace_address.len() == 0
    ||| parent.subtraces > 0 && child.trace_address == parent.trace_address.push(
        (parent.subtraces - 1) as u32,
    )
}

impl ClState {
    /// The state of a new listener.
    pub open spec fn initial() -> ClState {
        ClState {
            version: TracingVersion::Legacy,
            transaction_cost: 0,
            entries: Seq::empty(),
            entries_next_index: 0,
            context_stack: Seq::empty(),
            call_type: None,
            skip_next_context: false,
            step_result_entry: None,
            call_list_first_transaction: true,
            record_transaction_event_only: false,
            transaction_known: false,
        }
    }

    /// What holds of every state: the open contexts have their keys in the order in which they
    /// were opened, all below the next key; a context has gas only once the gasometer has
    /// spoken; and the paths start with the empty one, each continuing the one before. A
    /// transaction that has contexts, or an entry that waits, is known, and of one that is known
    /// there is more than its cost.
    pub open spec fn wf(self) -> bool {
        &&& self.context_stack.len() > 0 ==> self.transaction_known
        &&& self.step_result_entry is Some ==> self.transaction_known
        &&& self.transaction_known ==> !self.record_transaction_event_only
        &&& self.context_stack.len() > 0 ==> self.context_stack[0].trace_address.len() == 0
        &&& forall|i: int|
            #![trigger self.context_stack[i]]
            0 <= i < self.context_stack.len() ==> {
                &&& self.context_stack[i].entries_index < self.entries_next_index
                &&& self.context_stack[i].start_gas is None ==> self.context_stack[i].gas == 0
            }
        &&& forall|i: int, j: int|
            0 <= i < j < self.context_stack.len() ==> self.context_stack[i].entries_index
                < self.context_stack[j].entries_index
        &&& forall|i: int, j: int|
            #![trigger self.context_stack[i], self.context_stack[j]]
            0 <= i && j == i + 1 && j < self.context_stack.len() ==> continues(
                self.context_stack[i],
                self.context_stack[j],
            )
    }

    /// The state with an entry added to the last list, which is the first one if there is none
    /// yet.
    pub open spec fn insert_entry(self, key: u32, entry: CallView) -> ClState {
        ClState {
            entries: if self.entries.len() > 0 {
                self.entries.drop_last().push(self.entries.last().insert(key, entry))
            } else {
                seq![Map::empty().insert(key, entry)]
            },
            ..self
        }
    }

    /// The state in which a call, a creation or an exit of the transaction is known.
    pub open spec fn known(self) -> ClState {
        ClState { record_transaction_event_only: false, transaction_known: true, ..self }
    }

    /// The state with the innermost context replaced.
    pub open spec fn set_last(self, context: ContextView) -> ClState {
        ClState {
            context_stack: self.context_stack.drop_last().push(context),
            ..self
        }
    }

    /// The path of the next entry below the innermost context.
    pub open spec fn child_path(self) -> Seq<u32> {
        if self.context_stack.len() > 0 {
            self.context_stack.last().trace_address.push(self.context_stack.last().subtraces)
        } else {
            Seq::empty()
        }
    }

    /// The state with one more entry counted below the innermost context.
    pub open spec fn count_child(self) -> ClState {
        if self.context_stack.len() > 0 {
            let last = self.context_stack.last();
            self.set_last(ContextView { subtraces: (last.subtraces + 1) as u32, ..last })
        } else {
            self
        }
    }

    /// The state with a context opened under the next key.
    pub open spec fn push_context(
        self,
        context_type: ContextType,
        from: H160,
        trace_address: Seq<u32>,
        value: nat,
        data: Seq<u8>,
        to: H160,
    ) -> ClState {
        ClState {
            context_stack: self.context_stack.push(
                ContextView {
                    entries_index: self.entries_next_index,
                    context_type,
                    from,
                    trace_address,
                    subtraces: 0,
                    value,
                    gas: 0,
                    start_gas: None,
                    data,
                    to,
                },
            ),
            entries_next_index: (self.entries_next_index + 1) as u32,
            ..self
        }
    }

    /// A transaction opens its root context; the call or creation that follows belongs to it.
    pub open spec fn open_root(
        self,
        context_type: ContextType,
        from: H160,
        value: nat,
        data: Seq<u8>,
        to: H160,
    ) -> ClState {
        let opened = self.known().push_context(context_type, from, Seq::empty(), value, data, to);
        ClState { version: TracingVersion::EarlyTransact, skip_next_context: true, ..opened }
    }

    /// A call or creation opens a context below the innermost one, unless it belongs to the
    /// context that its transaction has opened.
    pub open spec fn open_child(
        self,
        context_type: ContextType,
        from: H160,
        value: nat,
        data: Seq<u8>,
        to: H160,
    ) -> ClState {
        let known = self.known();
        if self.skip_next_context {
            ClState { skip_next_context: false, ..known }
        } else {
            known.count_child().push_context(context_type, from, self.child_path(), value, data, to)
        }
    }

    /// The kind of the call that begins: what a trap has announced, else what the event says.
    pub open spec fn next_call_type(self, is_static: bool) -> CallType {
        match self.call_type {
            Some(call_type) => call_type,
            None => if is_static {
                CallType::StaticCall
            } else {
                CallType::Call
            },
        }
    }

    /// The account from which a call comes: the one that the innermost context runs for, else
    /// what the event says.
    pub open spec fn next_caller(self, caller: H160) -> H160 {
        if self.context_stack.len() > 0 {
            self.context_stack.last().to
        } else {
            caller
        }
    }

    /// The state without the innermost context, and that context's entry under its key.
    pub open spec fn pop_context(self, reason: ExitReason, return_value: Seq<u8>) -> (
        ClState,
        Option<(u32, CallView)>,
    ) {
        if self.context_stack.len() > 0 {
            let last = self.context_stack.last();
            (
                ClState { context_stack: self.context_stack.drop_last(), ..self },
                Some(
                    (
                        last.entries_index,
                        last.exit_entry(self.transaction_cost, reason, return_value),
                    ),
                ),
            )
        } else {
            (self, None)
        }
    }

    /// The state with an entry added, if there is one.
    pub open spec fn insert_if_some(self, entry: Option<(u32, CallView)>) -> ClState {
        match entry {
            Some((key, call)) => self.insert_entry(key, call),
            None => self,
        }
    }

    /// The state with the entry that waits, if there is one, added.
    pub open spec fn add_waiting(self) -> ClState {
        (ClState { step_result_entry: None, ..self }).insert_if_some(self.step_result_entry)
    }

    /// An account is destroyed: an entry of its own, below the innermost context.
    pub open spec fn destroy(self, address: H160, target: H160, balance: nat) -> ClState {
        let added = self.count_child().insert_entry(
            self.entries_next_index,
            CallView {
                from: address,
                trace_address: self.child_path(),
                subtraces: 0,
                value: 0,
                gas: 0,
                gas_used: 0,
                inner: CallInnerView::SelfDestruct { to: target, balance },
            },
        );
        ClState { entries_next_index: (self.entries_next_index + 1) as u32, ..added }
    }

    /// A context ends. If the step that ended it was seen, its entry waits already; else it is
    /// the innermost context that ends.
    pub open spec fn exit(self, reason: ExitReason, return_value: Seq<u8>) -> ClState {
        let known = self.known();
        if self.step_result_entry is Some {
            known.add_waiting()
        } else {
            let (popped, entry) = known.pop_context(reason, return_value);
            popped.insert_if_some(entry)
        }
    }

    /// Whether there is room for another key, and for another entry below the innermost context.
    pub open spec fn has_room(self) -> bool {
        &&& self.entries_next_index < u32::MAX
        &&& self.context_stack.len() > 0 ==> self.context_stack.last().subtraces < u32::MAX
    }

    /// Whether the innermost context, if any, can be closed.
    pub open spec fn can_pop(self) -> bool {
        self.context_stack.len() > 0 ==> self.context_stack.last().gas_countable(
            self.transaction_cost,
        )
    }

    /// What an event of the machinery around the contexts does.
    pub open spec fn evm_step(self, event: EvmEvent) -> ClState {
        match event {
            EvmEvent::TransactCall { caller, address, value, data, .. } => self.open_root(
                ContextType::Call(CallType::Call),
                caller,
                value@,
                data@,
                address,
            ),
            EvmEvent::TransactCreate { caller, value, init_code, address, .. } => self.open_root(
                ContextType::Create,
                caller,
                value@,
                init_code@,
                address,
            ),
            EvmEvent::TransactCreate2 { caller, value, init_code, address, .. } => self.open_root(
                ContextType::Create,
                caller,
                value@,
                init_code@,
                address,
            ),
            EvmEvent::Call { code_address, input, is_static, context, .. } => self.open_child(
                ContextType::Call(self.next_call_type(is_static)),
                self.next_caller(context.caller),
                context.apparent_value@,
                input@,
                code_address,
            ),
            EvmEvent::Create { caller, address, value, init_code, .. } => self.open_child(
                ContextType::Create,
                caller,
                value@,
                init_code@,
                address,
            ),
            EvmEvent::Suicide { address, target, balance } => self.destroy(
                address,
                target,
                balance@,
            ),
            EvmEvent::Exit { reason, return_value } => self.exit(reason, return_value@),
            EvmEvent::PrecompileSubcall { .. } => ClState {
                call_type: Some(CallType::Call),
                ..self
            },
        }
    }

    /// Whether an event of the machinery around the contexts can be taken in.
    pub open spec fn admits_evm(self, event: EvmEvent) -> bool {
        match event {
            EvmEvent::TransactCall { .. } => self.entries_next_index < u32::MAX,
            EvmEvent::TransactCreate { .. } => self.entries_next_index < u32::MAX,
            EvmEvent::TransactCreate2 { .. } => self.entries_next_index < u32::MAX,
            EvmEvent::Call { .. } => !self.skip_next_context ==> self.has_room(),
            EvmEvent::Create { .. } => !self.skip_next_context ==> self.has_room(),
            EvmEvent::Suicide { .. } => self.has_room(),
            EvmEvent::Exit { .. } => self.step_result_entry is None ==> self.can_pop(),
            EvmEvent::PrecompileSubcall { .. } => true,
        }
    }

    /// What an event of the machine that runs the code does.
    pub open spec fn runtime_step(self, event: RuntimeEvent) -> ClState {
        match event {
            RuntimeEvent::StepResult { result: Err(Capture::Trap(opcode)), .. } => {
                match context_type_of(opcode@) {
                    Some(ContextType::Call(call_type)) => ClState {
                        call_type: Some(call_type),
                        ..self
                    },
                    _ => self,
                }
            },
            RuntimeEvent::StepResult { result: Err(Capture::Exit(reason)), return_value } => {
                let (popped, entry) = self.pop_context(reason, return_value@);
                if entry is None {
                    popped
                } else if self.version == TracingVersion::Legacy {
                    popped.insert_if_some(entry)
                } else {
                    ClState { step_result_entry: entry, ..popped }
                }
            },
            _ => self,
        }
    }

    /// Whether an event of the machine that runs the code can be taken in.
    pub open spec fn admits_runtime(self, event: RuntimeEvent) -> bool {
        event matches RuntimeEvent::StepResult { result: Err(Capture::Exit(_)), .. }
            ==> self.can_pop()
    }

    /// The gasometer tells the gas left in the innermost context.
    pub open spec fn note_gas(self, gas: u64) -> ClState {
        if self.context_stack.len() > 0 {
            let last = self.context_stack.last();
            self.set_last(
                ContextView { start_gas: Some(last.start_gas.unwrap_or(gas)), gas, ..last },
            )
        } else {
            self
        }
    }

    /// What an event of the gasometer does. The cost of a transaction is all that is known of it
    /// if it comes before anything else.
    pub open spec fn gasometer_step(self, event: GasometerEvent) -> ClState {
        match event {
            GasometerEvent::RecordCost { snapshot, .. } => self.note_gas(snapshot.gas_left()),
            GasometerEvent::RecordDynamicCost { snapshot, .. } => self.note_gas(
                snapshot.gas_left(),
            ),
            GasometerEvent::RecordStipend { snapshot, .. } => self.note_gas(snapshot.gas_left()),
            GasometerEvent::RecordTransaction { cost, .. } => ClState {
                transaction_cost: cost,
                record_transaction_event_only: !self.transaction_known,
                ..self
            },
            GasometerEvent::RecordRefund { .. } => self,
        }
    }

    /// Whether a snapshot can be taken in.
    pub open spec fn admits_snapshot(self, snapshot: Snapshot) -> bool {
        self.context_stack.len() > 0 ==> snapshot.solvent()
    }

    /// Whether an event of the gasometer can be taken in.
    pub open spec fn admits_gasometer(self, event: GasometerEvent) -> bool {
        match event {
            GasometerEvent::RecordCost { snapshot, .. } => self.admits_snapshot(snapshot),
            GasometerEvent::RecordDynamicCost { snapshot, .. } => self.admits_snapshot(snapshot),
            GasometerEvent::RecordStipend { snapshot, .. } => self.admits_snapshot(snapshot),
            GasometerEvent::RecordTransaction { .. } => true,
            GasometerEvent::RecordRefund { .. } => true,
        }
    }

    /// The transaction is over. The entry that waits, if there is one, is added. A context that
    /// is still open was cut short: the outermost one gets its entry, and the others are
    /// forgotten. If only the cost of the transaction is known, an entry says so. Of a transaction
    /// that comes after it nothing is known yet.
    pub open spec fn finish(self) -> ClState {
        let flushed = ClState { transaction_known: false, ..self.add_waiting() };
        if self.context_stack.len() > 0 {
            let root = self.context_stack[0];
            let closed = (ClState { context_stack: Seq::empty(), ..flushed }).insert_entry(
                root.entries_index,
                root.early_exit_entry(self.transaction_cost),
            );
            ClState { entries_next_index: (root.entries_index + 1) as u32, ..closed }
        } else if self.record_transaction_event_only {
            let added = flushed.insert_entry(self.entries_next_index, unpaid_entry());
            ClState { entries_next_index: (self.entries_next_index + 1) as u32, ..added }
        } else {
            flushed
        }
    }

    /// Whether the transaction can be finished.
    pub open spec fn admits_finish(self) -> bool {
        if self.context_stack.len() > 0 {
            self.context_stack[0].gas_countable(self.transaction_cost)
        } else {
            self.record_transaction_event_only ==> self.entries_next_index < u32::MAX
        }
    }

    /// What an event does. The one that stands before each transaction ends the one before and
    /// starts another list, and nothing is known of the new transaction; before the first
    /// transaction there is nothing to end.
    pub open spec fn step(self, event: Event) -> ClState {
        match event {
            Event::Gasometer(event) => self.gasometer_step(event),
            Event::Runtime(event) => self.runtime_step(event),
            Event::Evm(event) => self.evm_step(event),
            Event::CallListNew() => {
                if self.call_list_first_transaction {
                    ClState { call_list_first_transaction: false, ..self }
                } else {
                    let finished = self.finish();
                    ClState {
                        skip_next_context: false,
                        call_type: None,
                        record_transaction_event_only: false,
                        entries: finished.entries.push(Map::empty()),
                        ..finished
                    }
                }
            },
        }
    }

    /// Whether an event can be taken in.
    pub open spec fn admits(self, event: Event) -> bool {
        match event {
            Event::Gasometer(event) => self.admits_gasometer(event),
            Event::Runtime(event) => self.admits_runtime(event),
            Event::Evm(event) => self.admits_evm(event),
            Event::CallListNew() => !self.call_list_first_transaction ==> self.admits_finish(),
        }
    }
}

} // verus!
