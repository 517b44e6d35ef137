//! The listener that records each executed opcode.

pub mod effects;
pub mod laws;
pub mod memory;
pub mod model;
pub mod storage;

use std::collections::BTreeMap;
use vstd::prelude::*;

use crate::calls::ContextType;
use crate::events::{Event, GasometerEvent, RuntimeEvent, StepEventFilter};
use crate::types::{
    u256_from_u64, u256_from_usize, Capture, EvmContext, ExitReason, Memory, Snapshot, Stack, H160,
    H256, U256,
};

use self::memory::convert_memory;
use self::model::{charge, storage_cost, RawContextView, RawState, StepLogView, StepView};
use self::storage::{met, overlay, refresh};

verus! {

broadcast use {vstd::laws_cmp::group_laws_cmp, vstd::std_specs::btree::group_btree_axioms};

/// The record of an opcode that has run.
#[derive(Debug)]
pub struct RawStepLog {
    /// Number of open contexts.
    pub depth: U256,
    /// Gas left.
    pub gas: U256,
    /// Gas that the opcode costs.
    pub gas_cost: U256,
    /// The memory before the opcode, as words.
    pub memory: Option<Vec<H256>>,
    /// Name of the opcode.
    pub op: Vec<u8>,
    /// Position in the code.
    pub pc: U256,
    /// The stack before the opcode.
    pub stack: Option<Vec<H256>>,
    /// The slots known of the account after the opcode.
    pub storage: Option<BTreeMap<H256, H256>>,
}

impl View for RawStepLog {
    type V = StepLogView;

    open spec fn view(&self) -> StepLogView {
        StepLogView {
            depth: self.depth@,
            gas: self.gas@,
            gas_cost: self.gas_cost@,
            memory: match self.memory {
                Some(memory) => Some(memory@),
                None => None,
            },
            op: self.op@,
            pc: self.pc@,
            stack: match self.stack {
                Some(stack) => Some(stack@),
                None => None,
            },
            storage: match self.storage {
                Some(storage) => Some(storage@),
                None => None,
            },
        }
    }
}

/// Records each opcode that one transaction runs.
///
/// What is recorded of memory, stack and storage counts against a budget; once it is exhausted
/// the listener takes nothing in any more.
#[derive(Debug)]
pub struct ListenerRaw {
    /// What is not to be recorded, and what is known of the transaction that runs.
    pub progress: Progress,
    /// The records.
    pub struct_logs: Vec<RawStepLog>,
    /// What the transaction returned.
    pub return_value: Vec<u8>,
    /// Gas used.
    pub final_gas: u64,
    /// What is left of the budget; `None` once it is exhausted.
    pub remaining_memory_usage: Option<usize>,
}

/// What is not to be recorded, and what is known of the transaction that runs.
#[derive(Debug)]
pub struct Progress {
    disable_storage: bool,
    disable_memory: bool,
    disable_stack: bool,
    /// Whether the next step is the first of a context.
    new_context: bool,
    /// The open contexts, the innermost last.
    context_stack: Vec<ContextRaw>,
}

/// An open context.
#[derive(Debug)]
struct ContextRaw {
    /// The slots of the context's account that it has read or written.
    storage_cache: BTreeMap<H256, H256>,
    address: H160,
    /// The opcode that is about to run.
    current_step: Option<Step>,
    /// The slots of other accounts that contexts inside this one have left behind.
    global_storage_changes: BTreeMap<H160, BTreeMap<H256, H256>>,
}

/// An opcode that is about to run.
#[derive(Debug)]
struct Step {
    opcode: Vec<u8>,
    depth: usize,
    gas: u64,
    gas_cost: u64,
    position: usize,
    memory: Option<Vec<u8>>,
    stack: Option<Vec<H256>>,
}

impl View for Step {
    type V = StepView;

    closed spec fn view(&self) -> StepView {
        StepView {
            opcode: self.opcode@,
            depth: self.depth as nat,
            gas: self.gas,
            gas_cost: self.gas_cost,
            position: self.position,
            memory: match self.memory {
                Some(memory) => Some(memory@),
                None => None,
            },
            stack: match self.stack {
                Some(stack) => Some(stack@),
                None => None,
            },
        }
    }
}

/// Changes by account as a mathematical value.
spec fn changes_view(changes: Map<H160, BTreeMap<H256, H256>>) -> Map<H160, Map<H256, H256>> {
    changes.map_values(|slots: BTreeMap<H256, H256>| slots@)
}

impl View for ContextRaw {
    type V = RawContextView;

    closed spec fn view(&self) -> RawContextView {
        RawContextView {
            storage_cache: self.storage_cache@,
            address: self.address,
            current_step: match self.current_step {
                Some(step) => Some(step@),
                None => None,
            },
            global_storage_changes: changes_view(self.global_storage_changes@),
        }
    }
}

/// The records as mathematical values.
pub open spec fn logs_view(logs: Seq<RawStepLog>) -> Seq<StepLogView> {
    logs.map_values(|log: RawStepLog| log@)
}

impl View for Progress {
    type V = RawState;

    /// The state of the listener but for what it has recorded and the budget.
    closed spec fn view(&self) -> RawState {
        RawState {
            disable_storage: self.disable_storage,
            disable_memory: self.disable_memory,
            disable_stack: self.disable_stack,
            new_context: self.new_context,
            context_stack: self.context_stack@.map_values(|context: ContextRaw| context@),
            struct_logs: Seq::empty(),
            return_value: Seq::empty(),
            final_gas: 0,
            remaining_memory_usage: None,
        }
    }
}

impl View for ListenerRaw {
    type V = RawState;

    open spec fn view(&self) -> RawState {
        RawState {
            struct_logs: logs_view(self.struct_logs@),
            return_value: self.return_value@,
            final_gas: self.final_gas,
            remaining_memory_usage: self.remaining_memory_usage,
            ..self.progress@
        }
    }
}

/// What the public fields hold is what the contracts say of the records, the return value, the
/// gas and the budget.
pub proof fn fields_are_state(listener: ListenerRaw)
    ensures
        listener@.struct_logs == logs_view(listener.struct_logs@),
        listener@.struct_logs.len() == listener.struct_logs@.len(),
        forall|i: int|
            0 <= i < listener.struct_logs@.len() ==> listener@.struct_logs[i] == (
            #[trigger] listener.struct_logs@[i])@,
        listener@.return_value == listener.return_value@,
        listener@.final_gas == listener.final_gas,
        listener@.remaining_memory_usage == listener.remaining_memory_usage,
{
}

/// What is left of a budget after a cost.
fn charge_budget(budget: Option<usize>, cost: usize) -> (r: Option<usize>)
    ensures
        r == charge(budget, cost as nat),
{
    match budget {
        Some(left) => left.checked_sub(cost),
        None => None,
    }
}

/// What is left of a budget after recording `slots`.
fn charge_storage(budget: Option<usize>, slots: &BTreeMap<H256, H256>) -> (r: Option<usize>)
    ensures
        r == charge(budget, storage_cost(slots@)),
{
    match slots.len().checked_mul(64) {
        Some(cost) => charge_budget(budget, cost),
        None => None,
    }
}

impl ContextRaw {
    /// Takes over what a context inside this one has left behind.
    fn absorb(&mut self, changes: &BTreeMap<H160, BTreeMap<H256, H256>>)
        ensures
            final(self)@ == old(self)@.absorb(changes_view(changes@)),
    {
        let ghost target = old(self)@.absorb(changes_view(changes@));
        for entry in iter: changes.iter()
            invariant
                self.address == old(self).address,
                self.current_step == old(self).current_step,
                target == old(self)@.absorb(changes_view(changes@)),
                self.storage_cache@ == if met(
                    iter.seq(),
                    iter.index() as int,
                    old(self).address,
                ) {
                    target.storage_cache
                } else {
                    old(self).storage_cache@
                },
                forall|a: H160| #[trigger]
                    self.global_storage_changes@.contains_key(a) <==> old(
                        self,
                    ).global_storage_changes@.contains_key(a) || a != self.address && met(
                        iter.seq(),
                        iter.index() as int,
                        a,
                    ),
                forall|a: H160| #[trigger]
                    self.global_storage_changes@.contains_key(a) ==> self.global_storage_changes@[a]@
                        == if a != self.address && met(iter.seq(), iter.index() as int, a) {
                        target.global_storage_changes[a]
                    } else {
                        old(self).global_storage_changes@[a]@
                    },
        {
            let address: H160 = *entry.0;
            let slots: &BTreeMap<H256, H256> = entry.1;
            if self.address.0 == address.0 && self.address.1 == address.1 {
                refresh(&mut self.storage_cache, slots);
            } else {
                let mut kept: BTreeMap<H256, H256> = match self.global_storage_changes.remove(
                    &address,
                ) {
                    Some(kept) => kept,
                    None => BTreeMap::new(),
                };
                overlay(&mut kept, slots);
                self.global_storage_changes.insert(address, kept);
            }
        }
        assert(self@.storage_cache =~= target.storage_cache);
        assert(self@.global_storage_changes =~= target.global_storage_changes);
    }
}

impl ListenerRaw {
    /// A listener that has seen no event, with what it is not to record, and its budget.
    pub fn new(
        disable_storage: bool,
        disable_memory: bool,
        disable_stack: bool,
        raw_max_memory_usage: usize,
    ) -> (r: Self)
        ensures
            r@ == RawState::initial(
                disable_storage,
                disable_memory,
                disable_stack,
                raw_max_memory_usage,
            ),
            r@.wf(),
    {
        let progress = Progress {
            disable_storage,
            disable_memory,
            disable_stack,
            new_context: false,
            context_stack: Vec::new(),
        };
        let r = ListenerRaw {
            progress,
            remaining_memory_usage: Some(raw_max_memory_usage),
            struct_logs: Vec::new(),
            return_value: Vec::new(),
            final_gas: 0,
        };
        assert(r@.context_stack =~= Seq::empty());
        assert(r@.struct_logs =~= Seq::empty());
        r
    }

    /// Notes the cost of an opcode.
    fn note_cost(&mut self, cost: u64, snapshot: Snapshot)
        requires
            old(self)@.in_step() ==> snapshot.solvent(),
        ensures
            final(self)@ == old(self)@.note_cost(cost, snapshot),
    {
        if let Some(mut context) = self.progress.context_stack.pop() {
            assert(context@ == old(self)@.context_stack.last());
            // Costs outside of any opcode are not noted.
            if let Some(step) = context.current_step {
                context.current_step = Some(Step { gas: snapshot.gas(), gas_cost: cost, ..step });
            } else {
                context.current_step = None;
            }
            self.progress.context_stack.push(context);
            self.final_gas = snapshot.used_gas;
        }
        assert(self@.context_stack =~= old(self)@.note_cost(cost, snapshot).context_stack);
    }

    /// Takes in an event of the gasometer.
    pub fn gasometer_event(&mut self, event: GasometerEvent)
        requires
            old(self)@.wf(),
            old(self)@.admits_gasometer(event),
        ensures
            final(self)@ == old(self)@.gasometer_step(event),
            final(self)@.wf(),
    {
        proof {
            laws::gasometer_step_wf(self@, event);
        }
        match event {
            GasometerEvent::RecordTransaction { cost, .. } => {
                // The next step is the first of the first context.
                self.progress.new_context = true;
                self.final_gas = cost;
            },
            GasometerEvent::RecordCost { cost, snapshot } => self.note_cost(cost, snapshot),
            GasometerEvent::RecordDynamicCost { gas_cost, snapshot, .. } => self.note_cost(
                gas_cost,
                snapshot,
            ),
            _ => (),
        }
    }

    /// Opens a context if this is its first step.
    fn enter(&mut self, address: H160)
        ensures
            final(self)@ == old(self)@.enter(address),
    {
        if self.progress.new_context {
            self.progress.new_context = false;
            let context = ContextRaw {
                storage_cache: BTreeMap::new(),
                address,
                current_step: None,
                global_storage_changes: BTreeMap::new(),
            };
            assert(context@.global_storage_changes =~= Map::empty());
            self.progress.context_stack.push(context);
        }
        assert(self@.context_stack =~= old(self)@.enter(address).context_stack);
    }

    /// Notes the opcode that is about to run.
    fn begin_step(
        &mut self,
        context: EvmContext,
        opcode: Vec<u8>,
        position: Result<u64, ExitReason>,
        stack: Option<Stack>,
        memory: Option<Memory>,
    )
        requires
            old(self)@.admits_step(stack, memory),
        ensures
            final(self)@ == old(self)@.begin_step(context, opcode@, position, stack, memory),
    {
        let ghost target = old(self)@.begin_step(context, opcode@, position, stack, memory);
        self.enter(context.address);
        let depth: usize = self.progress.context_stack.len();
        if depth == 0 {
            return ;
        }
        let step_memory: Option<Vec<u8>> = if self.progress.disable_memory {
            None
        } else {
            let data: Vec<u8> = memory.unwrap().data;
            self.remaining_memory_usage = charge_budget(self.remaining_memory_usage, data.len());
            if self.remaining_memory_usage.is_none() {
                return ;
            }
            Some(data)
        };
        let step_stack: Option<Vec<H256>> = if self.progress.disable_stack {
            None
        } else {
            let data: Vec<H256> = stack.unwrap().data;
            self.remaining_memory_usage = charge_budget(self.remaining_memory_usage, data.len());
            if self.remaining_memory_usage.is_none() {
                return ;
            }
            Some(data)
        };
        let position: usize = match position {
            Ok(position) => position as usize,
            Err(_) => 0,
        };
        if let Some(context) = self.progress.context_stack.last_mut() {
            // The gasometer tells the gas later.
            context.current_step = Some(
                Step {
                    opcode,
                    depth,
                    gas: 0,
                    gas_cost: 0,
                    position,
                    memory: step_memory,
                    stack: step_stack,
                },
            );
        }
        assert(self@.context_stack =~= target.context_stack);
    }

    /// Records the opcode that has run, if there is one. The result is whether the budget
    /// allowed for it.
    fn end_step(&mut self) -> (r: bool)
        ensures
            final(self)@ == old(self)@.end_step(),
            r == !old(self)@.storage_exhausts(),
    {
        let ghost target = old(self)@.end_step();
        if let Some(mut context) = self.progress.context_stack.pop() {
            assert(context@ == old(self)@.context_stack.last());
            if let Some(step) = context.current_step {
                context.current_step = None;
                let storage: Option<BTreeMap<H256, H256>> = if self.progress.disable_storage {
                    None
                } else {
                    self.remaining_memory_usage =
                    charge_storage(self.remaining_memory_usage, &context.storage_cache);
                    if self.remaining_memory_usage.is_none() {
                        self.progress.context_stack.push(context);
                        assert(self@.context_stack =~= target.context_stack);
                        return false;
                    }
                    Some(context.storage_cache.clone())
                };
                self.progress.context_stack.push(context);
                let memory: Option<Vec<H256>> = match step.memory {
                    Some(memory) => Some(convert_memory(memory)),
                    None => None,
                };
                let log = RawStepLog {
                    depth: u256_from_usize(step.depth),
                    gas: u256_from_u64(step.gas),
                    gas_cost: u256_from_u64(step.gas_cost),
                    memory,
                    op: step.opcode,
                    pc: u256_from_usize(step.position),
                    stack: step.stack,
                    storage,
                };
                self.struct_logs.push(log);
            } else {
                context.current_step = None;
                self.progress.context_stack.push(context);
            }
        }
        assert(self@.context_stack =~= target.context_stack);
        assert(self@.struct_logs =~= target.struct_logs);
        true
    }

    /// Closes the innermost context, if any.
    fn leave(&mut self, reason: ExitReason, return_value: Vec<u8>)
        ensures
            final(self)@ == old(self)@.leave(reason, return_value@),
    {
        let ghost target = old(self)@.leave(reason, return_value@);
        if let Some(mut context) = self.progress.context_stack.pop() {
            assert(context@ == old(self)@.context_stack.last());
            if self.progress.context_stack.is_empty() {
                self.return_value = return_value;
            } else if !self.progress.disable_storage && matches!(reason, ExitReason::Succeed(_)) {
                let ghost left = context@.all_changes();
                let mut changes: BTreeMap<H160, BTreeMap<H256, H256>> =
                    context.global_storage_changes;
                changes.insert(context.address, context.storage_cache);
                assert(changes_view(changes@) =~= left);
                if let Some(parent_context) = self.progress.context_stack.last_mut() {
                    parent_context.absorb(&changes);
                }
            }
        }
        assert(self@.context_stack =~= target.context_stack);
    }

    /// Notes a slot that was read or written.
    fn note_slot(&mut self, index: H256, value: H256)
        ensures
            final(self)@ == old(self)@.note_slot(index, value),
    {
        if !self.progress.disable_storage {
            if let Some(context) = self.progress.context_stack.last_mut() {
                context.storage_cache.insert(index, value);
            }
        }
        assert(self@.context_stack =~= old(self)@.note_slot(index, value).context_stack);
    }

    /// Takes in an event of the machine that runs the code.
    pub fn runtime_event(&mut self, event: RuntimeEvent)
        requires
            old(self)@.wf(),
            old(self)@.admits_runtime(event),
        ensures
            final(self)@ == old(self)@.runtime_step(event),
            final(self)@.wf(),
    {
        proof {
            laws::runtime_step_wf(self@, event);
        }
        match event {
            RuntimeEvent::Step { context, opcode, position, stack, memory } => self.begin_step(
                context,
                opcode,
                position,
                stack,
                memory,
            ),
            RuntimeEvent::StepResult { result, return_value } => {
                // There is no opcode to record in a transfer to an account without code.
                if self.end_step() {
                    match result {
                        Err(Capture::Exit(reason)) => self.leave(reason, return_value),
                        Err(Capture::Trap(opcode)) => {
                            if ContextType::from(opcode).is_some() {
                                self.progress.new_context = true;
                            }
                        },
                        Ok(_) => (),
                    }
                }
            },
            RuntimeEvent::SLoad { index, value, .. } => self.note_slot(index, value),
            RuntimeEvent::SStore { index, value, .. } => self.note_slot(index, value),
        }
    }

    /// Takes in an event, unless the budget is exhausted.
    pub fn event(&mut self, event: Event)
        requires
            old(self)@.wf(),
            old(self)@.admits(event),
        ensures
            final(self)@ == old(self)@.step(event),
            final(self)@.wf(),
    {
        if self.remaining_memory_usage.is_none() {
            return ;
        }
        match event {
            Event::Gasometer(e) => self.gasometer_event(e),
            Event::Runtime(e) => self.runtime_event(e),
            _ => (),
        }
    }

    /// The memory and the stack are needed unless they are disabled.
    pub fn step_event_filter(&self) -> (r: StepEventFilter)
        ensures
            r == (StepEventFilter {
                enable_memory: !self@.disable_memory,
                enable_stack: !self@.disable_stack,
            }),
    {
        StepEventFilter { enable_memory: !self.progress.disable_memory, enable_stack: !self.progress.disable_stack }
    }

    /// Whether an opcode of the innermost context is about to run.
    fn is_in_step(&self) -> (r: bool)
        ensures
            r == self@.in_step(),
    {
        match self.progress.context_stack.last() {
            Some(context) => context.current_step.is_some(),
            None => false,
        }
    }

    /// Whether the memory and the stack are there where they are needed.
    fn can_take_step(&self, stack: &Option<Stack>, memory: &Option<Memory>) -> (r: bool)
        ensures
            r == self@.admits_step(*stack, *memory),
    {
        if !self.progress.new_context && self.progress.context_stack.len() == 0 {
            return true;
        }
        let exhausted: bool = if self.progress.disable_memory {
            false
        } else {
            match memory {
                Some(memory) => charge_budget(
                    self.remaining_memory_usage,
                    memory.data.len(),
                ).is_none(),
                None => {
                    return false;
                },
            }
        };
        self.progress.disable_stack || exhausted || stack.is_some()
    }

    /// Whether the event can be taken in: no gas is missing, and nothing that is to be recorded
    /// was filtered out.
    pub fn can_take(&self, event: &Event) -> (r: bool)
        ensures
            r == self@.admits(*event),
    {
        if self.remaining_memory_usage.is_none() {
            return true;
        }
        match event {
            Event::Gasometer(e) => match e {
                GasometerEvent::RecordCost { snapshot, .. } => !self.is_in_step()
                    || snapshot.is_solvent(),
                GasometerEvent::RecordDynamicCost { snapshot, .. } => !self.is_in_step()
                    || snapshot.is_solvent(),
                _ => true,
            },
            Event::Runtime(e) => match e {
                RuntimeEvent::Step { stack, memory, .. } => self.can_take_step(stack, memory),
                _ => true,
            },
            _ => true,
        }
    }
}

} // verus!
