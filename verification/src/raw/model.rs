//! The state of a [`ListenerRaw`](super::ListenerRaw) as a mathematical value, and what each
//! event does to it.

use vstd::prelude::*;

use super::memory::memory_words;
use super::storage::refreshed;
use crate::calls::context_type_of;
use crate::events::{Event, GasometerEvent, RuntimeEvent};
use crate::types::{Capture, EvmContext, ExitReason, Memory, Snapshot, Stack, H160, H256};

verus! {

/// An opcode that is about to run.
pub ghost struct StepView {
    /// Its name.
    pub opcode: Seq<u8>,
    /// Number of open contexts.
    pub depth: nat,
    /// Gas left.
    pub gas: u64,
    /// Gas that it costs.
    pub gas_cost: u64,
    /// Position in the code.
    pub position: usize,
    /// The memory, unless it is disabled.
    pub memory: Option<Seq<u8>>,
    /// The stack, unless it is disabled.
    pub stack: Option<Seq<H256>>,
}

/// The record of an opcode that has run.
pub ghost struct StepLogView {
    pub depth: nat,
    pub gas: nat,
    pub gas_cost: nat,
    pub memory: Option<Seq<H256>>,
    pub op: Seq<u8>,
    pub pc: nat,
    pub stack: Option<Seq<H256>>,
    pub storage: Option<Map<H256, H256>>,
}

impl StepView {
    /// The record of the opcode, with the slots known of its account.
    pub open spec fn log(self, storage: Option<Map<H256, H256>>) -> StepLogView {
        StepLogView {
            depth: self.depth,
            gas: self.gas as nat,
            gas_cost: self.gas_cost as nat,
            memory: match self.memory {
                Some(memory) => Some(memory_words(memory)),
                None => None,
            },
            op: self.opcode,
            pc: self.position as nat,
            stack: self.stack,
            storage,
        }
    }
}

/// An open context.
pub ghost struct RawContextView {
    /// The slots of its account that it has read or written, with their values.
    pub storage_cache: Map<H256, H256>,
    /// Its account.
    pub address: H160,
    /// The opcode that is about to run.
    pub current_step: Option<StepView>,
    /// The slots of other accounts that contexts below it have left behind.
    pub global_storage_changes: Map<H160, Map<H256, H256>>,
}

impl RawContextView {
    /// A context that has just been opened.
    pub open spec fn opened(address: H160) -> RawContextView {
        RawContextView {
            storage_cache: Map::empty(),
            address,
            current_step: None,
            global_storage_changes: Map::empty(),
        }
    }

    /// All that the context leaves behind, by account.
    pub open spec fn all_changes(self) -> Map<H160, Map<H256, H256>> {
        self.global_storage_changes.insert(self.address, self.storage_cache)
    }

    /// The slots of another account that contexts below it have left behind.
    pub open spec fn changes_of(self, address: H160) -> Map<H256, H256> {
        if self.global_storage_changes.contains_key(address) {
            self.global_storage_changes[address]
        } else {
            Map::empty()
        }
    }

    /// The context after one below it has left `changes` behind: its own slots get their new
    /// values, without any slot being added; the changes to other accounts are kept, the newer
    /// ones in place of the older.
    pub open spec fn absorb(self, changes: Map<H160, Map<H256, H256>>) -> RawContextView {
        RawContextView {
            storage_cache: if changes.contains_key(self.address) {
                refreshed(self.storage_cache, changes[self.address])
            } else {
                self.storage_cache
            },
            global_storage_changes: Map::new(
                |a: H160|
                    self.global_storage_changes.contains_key(a) || changes.contains_key(a) && a
                        != self.address,
                |a: H160|
                    if changes.contains_key(a) && a != self.address {
                        self.changes_of(a).union_prefer_right(changes[a])
                    } else {
                        self.global_storage_changes[a]
                    },
            ),
            ..self
        }
    }
}

/// What is left of a budget after a cost; nothing ever again once it does not suffice.
pub open spec fn charge(budget: Option<usize>, cost: nat) -> Option<usize> {
    match budget {
        Some(left) => if cost <= left {
            Some((left - cost) as usize)
        } else {
            None
        },
        None => None,
    }
}

/// What slots count for in the budget: 64 bytes each.
pub open spec fn storage_cost(slots: Map<H256, H256>) -> nat {
    slots.len() * 64
}

/// The state of the listener.
pub ghost struct RawState {
    /// Whether the storage is not recorded.
    pub disable_storage: bool,
    /// Whether the memory is not recorded.
    pub disable_memory: bool,
    /// Whether the stack is not recorded.
    pub disable_stack: bool,
    /// Whether the next step is the first of a context.
    pub new_context: bool,
    /// The open contexts, the innermost last.
    pub context_stack: Seq<RawContextView>,
    /// The records.
    pub struct_logs: Seq<StepLogView>,
    /// What the transaction returned.
    pub return_value: Seq<u8>,
    /// Gas used.
    pub final_gas: u64,
    /// What is left of the budget of memory, stack and storage recorded.
    pub remaining_memory_usage: Option<usize>,
}

impl RawState {
    /// The state of a new listener.
    pub open spec fn initial(
        disable_storage: bool,
        disable_memory: bool,
        disable_stack: bool,
        raw_max_memory_usage: usize,
    ) -> RawState {
        RawState {
            disable_storage,
            disable_memory,
            disable_stack,
            new_context: false,
            context_stack: Seq::empty(),
            struct_logs: Seq::empty(),
            return_value: Seq::empty(),
            final_gas: 0,
            remaining_memory_usage: Some(raw_max_memory_usage),
        }
    }

    /// Whether what is recorded of an opcode is what is not disabled.
    pub open spec fn step_wf(self, step: StepView) -> bool {
        &&& step.memory is Some <==> !self.disable_memory
        &&& step.stack is Some <==> !self.disable_stack
    }

    /// Whether what a record holds is what is not disabled.
    pub open spec fn log_wf(self, log: StepLogView) -> bool {
        &&& log.memory is Some <==> !self.disable_memory
        &&& log.stack is Some <==> !self.disable_stack
        &&& log.storage is Some <==> !self.disable_storage
    }

    /// What holds of a context with `below` contexts around it: its opcode has the right depth;
    /// the changes that it keeps are to accounts other than its own; and with the storage
    /// disabled nothing is known of any slot.
    pub open spec fn context_wf(self, context: RawContextView, below: int) -> bool {
        &&& context.storage_cache.dom().finite()
        &&& context.current_step matches Some(step) ==> {
            &&& step.depth == below + 1
            &&& self.step_wf(step)
        }
        &&& !context.global_storage_changes.contains_key(context.address)
        &&& self.disable_storage ==> {
            &&& context.storage_cache == Map::<H256, H256>::empty()
            &&& context.global_storage_changes == Map::<H160, Map<H256, H256>>::empty()
        }
    }

    /// What holds of every state.
    pub open spec fn wf(self) -> bool {
        &&& forall|i: int|
            0 <= i < self.context_stack.len() ==> self.context_wf(
                #[trigger] self.context_stack[i],
                i,
            )
        &&& forall|i: int|
            0 <= i < self.struct_logs.len() ==> self.log_wf(#[trigger] self.struct_logs[i])
    }

    /// The state with the innermost context replaced.
    pub open spec fn set_last(self, context: RawContextView) -> RawState {
        RawState {
            context_stack: self.context_stack.drop_last().push(context),
            ..self
        }
    }

    /// The first step of a context opens it.
    pub open spec fn enter(self, address: H160) -> RawState {
        if self.new_context {
            RawState {
                new_context: false,
                context_stack: self.context_stack.push(RawContextView::opened(address)),
                ..self
            }
        } else {
            self
        }
    }

    /// What is left of the budget once the memory is recorded.
    pub open spec fn after_memory(self, memory: Option<Memory>) -> Option<usize> {
        if self.disable_memory {
            self.remaining_memory_usage
        } else {
            charge(self.remaining_memory_usage, memory->Some_0.data@.len())
        }
    }

    /// What is left of the budget once the memory and the stack are recorded.
    pub open spec fn after_stack(self, memory: Option<Memory>, stack: Option<Stack>) -> Option<
        usize,
    > {
        if self.disable_stack {
            self.after_memory(memory)
        } else {
            charge(self.after_memory(memory), stack->Some_0.data@.len())
        }
    }

    /// Whether the budget ends with the memory.
    pub open spec fn memory_exhausts(self, memory: Option<Memory>) -> bool {
        !self.disable_memory && self.after_memory(memory) is None
    }

    /// Whether the budget ends with the memory or with the stack.
    pub open spec fn step_exhausts(self, memory: Option<Memory>, stack: Option<Stack>) -> bool {
        self.memory_exhausts(memory) || !self.disable_stack && self.after_stack(memory, stack)
            is None
    }

    /// An opcode is about to run.
    pub open spec fn begin_step(
        self,
        context: EvmContext,
        opcode: Seq<u8>,
        position: Result<u64, ExitReason>,
        stack: Option<Stack>,
        memory: Option<Memory>,
    ) -> RawState {
        let entered = self.enter(context.address);
        if entered.context_stack.len() == 0 {
            entered
        } else if self.step_exhausts(memory, stack) {
            RawState { remaining_memory_usage: None, ..entered }
        } else {
            let step = StepView {
                opcode,
                depth: entered.context_stack.len(),
                gas: 0,
                gas_cost: 0,
                position: match position {
                    Ok(position) => position as usize,
                    Err(_) => 0,
                },
                memory: if self.disable_memory {
                    None
                } else {
                    Some(memory->Some_0.data@)
                },
                stack: if self.disable_stack {
                    None
                } else {
                    Some(stack->Some_0.data@)
                },
            };
            let charged = RawState {
                remaining_memory_usage: self.after_stack(memory, stack),
                ..entered
            };
            charged.set_last(
                RawContextView { current_step: Some(step), ..entered.context_stack.last() },
            )
        }
    }

    /// Whether the memory and the stack are there where they are needed.
    pub open spec fn admits_step(self, stack: Option<Stack>, memory: Option<Memory>) -> bool {
        self.new_context || self.context_stack.len() > 0 ==> {
            &&& !self.disable_memory ==> memory is Some
            &&& !self.disable_stack && !self.memory_exhausts(memory) ==> stack is Some
        }
    }

    /// Whether an opcode of the innermost context is about to run.
    pub open spec fn in_step(self) -> bool {
        self.context_stack.len() > 0 && self.context_stack.last().current_step is Some
    }

    /// What is left of the budget once the storage is recorded.
    pub open spec fn after_storage(self) -> Option<usize> {
        if self.disable_storage {
            self.remaining_memory_usage
        } else {
            charge(
                self.remaining_memory_usage,
                storage_cost(self.context_stack.last().storage_cache),
            )
        }
    }

    /// Whether an opcode has run whose storage does not fit in the budget.
    pub open spec fn storage_exhausts(self) -> bool {
        self.in_step() && !self.disable_storage && self.after_storage() is None
    }

    /// The opcode that was about to run has run: it is recorded, unless its storage does not fit
    /// in the budget.
    pub open spec fn end_step(self) -> RawState {
        if !self.in_step() {
            self
        } else {
            let last = self.context_stack.last();
            let taken = self.set_last(RawContextView { current_step: None, ..last });
            if self.storage_exhausts() {
                RawState { remaining_memory_usage: None, ..taken }
            } else {
                let storage = if self.disable_storage {
                    None
                } else {
                    Some(last.storage_cache)
                };
                RawState {
                    remaining_memory_usage: self.after_storage(),
                    struct_logs: self.struct_logs.push(last.current_step->Some_0.log(storage)),
                    ..taken
                }
            }
        }
    }

    /// The innermost context ends. The outermost one gives the transaction's return value. If it
    /// succeeds, the context around it takes over what it leaves behind.
    pub open spec fn leave(self, reason: ExitReason, return_value: Seq<u8>) -> RawState {
        if self.context_stack.len() == 0 {
            self
        } else if self.context_stack.len() == 1 {
            RawState { context_stack: Seq::empty(), return_value, ..self }
        } else {
            let popped = RawState { context_stack: self.context_stack.drop_last(), ..self };
            if !self.disable_storage && reason is Succeed {
                popped.set_last(
                    popped.context_stack.last().absorb(self.context_stack.last().all_changes()),
                )
            } else {
                popped
            }
        }
    }

    /// What the result of an opcode leads to.
    pub open spec fn take_result(
        self,
        result: Result<(), Capture<ExitReason, Vec<u8>>>,
        return_value: Seq<u8>,
    ) -> RawState {
        match result {
            Err(Capture::Exit(reason)) => self.leave(reason, return_value),
            Err(Capture::Trap(opcode)) => if context_type_of(opcode@) is Some {
                RawState { new_context: true, ..self }
            } else {
                self
            },
            Ok(_) => self,
        }
    }

    /// A slot was read or written.
    pub open spec fn note_slot(self, index: H256, value: H256) -> RawState {
        if self.context_stack.len() > 0 && !self.disable_storage {
            let last = self.context_stack.last();
            self.set_last(
                RawContextView { storage_cache: last.storage_cache.insert(index, value), ..last },
            )
        } else {
            self
        }
    }

    /// What an event of the machine that runs the code does.
    pub open spec fn runtime_step(self, event: RuntimeEvent) -> RawState {
        match event {
            RuntimeEvent::Step { context, opcode, position, stack, memory } => self.begin_step(
                context,
                opcode@,
                position,
                stack,
                memory,
            ),
            RuntimeEvent::StepResult { result, return_value } => if self.storage_exhausts() {
                self.end_step()
            } else {
                self.end_step().take_result(result, return_value@)
            },
            RuntimeEvent::SLoad { index, value, .. } => self.note_slot(index, value),
            RuntimeEvent::SStore { index, value, .. } => self.note_slot(index, value),
        }
    }

    /// Whether an event of the machine that runs the code can be taken in.
    pub open spec fn admits_runtime(self, event: RuntimeEvent) -> bool {
        match event {
            RuntimeEvent::Step { stack, memory, .. } => self.admits_step(stack, memory),
            _ => true,
        }
    }

    /// The gasometer tells the cost of an opcode. Costs outside of any context do not count, and
    /// costs outside of any opcode count only for the total.
    pub open spec fn note_cost(self, cost: u64, snapshot: Snapshot) -> RawState {
        if self.context_stack.len() == 0 {
            self
        } else {
            let last = self.context_stack.last();
            let noted = match last.current_step {
                Some(step) => self.set_last(
                    RawContextView {
                        current_step: Some(
                            StepView { gas: snapshot.gas_left(), gas_cost: cost, ..step },
                        ),
                        ..last
                    },
                ),
                None => self,
            };
            RawState { final_gas: snapshot.used_gas, ..noted }
        }
    }

    /// What an event of the gasometer does.
    pub open spec fn gasometer_step(self, event: GasometerEvent) -> RawState {
        match event {
            GasometerEvent::RecordTransaction { cost, .. } => RawState {
                new_context: true,
                final_gas: cost,
                ..self
            },
            GasometerEvent::RecordCost { cost, snapshot } => self.note_cost(cost, snapshot),
            GasometerEvent::RecordDynamicCost { gas_cost, snapshot, .. } => self.note_cost(
                gas_cost,
                snapshot,
            ),
            _ => self,
        }
    }

    /// Whether an event of the gasometer can be taken in.
    pub open spec fn admits_gasometer(self, event: GasometerEvent) -> bool {
        match event {
            GasometerEvent::RecordCost { snapshot, .. } => self.in_step() ==> snapshot.solvent(),
            GasometerEvent::RecordDynamicCost { snapshot, .. } => self.in_step()
                ==> snapshot.solvent(),
            _ => true,
        }
    }

    /// What an event does. Once the budget is exhausted, nothing.
    pub open spec fn step(self, event: Event) -> RawState {
        if self.remaining_memory_usage is None {
            self
        } else {
            match event {
                Event::Gasometer(event) => self.gasometer_step(event),
                Event::Runtime(event) => self.runtime_step(event),
                _ => self,
            }
        }
    }

    /// Whether an event can be taken in.
    pub open spec fn admits(self, event: Event) -> bool {
        self.remaining_memory_usage is Some ==> match event {
            Event::Gasometer(event) => self.admits_gasometer(event),
            Event::Runtime(event) => self.admits_runtime(event),
            _ => true,
        }
    }
}

} // verus!
