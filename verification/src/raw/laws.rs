//! Laws of the step listener.

use vstd::prelude::*;

use super::memory::memory_words;
use super::model::{charge, storage_cost, RawContextView, RawState, StepLogView, StepView};
use super::storage::refreshed;
use crate::events::{Event, GasometerEvent, RuntimeEvent, StepEventFilter};
use crate::types::{Capture, EvmContext, ExitReason, Memory, Snapshot, Stack, H160, H256};

verus! {

/// A new listener is well-formed.
pub proof fn initial_wf(
    disable_storage: bool,
    disable_memory: bool,
    disable_stack: bool,
    raw_max_memory_usage: usize,
)
    ensures
        RawState::initial(
            disable_storage,
            disable_memory,
            disable_stack,
            raw_max_memory_usage,
        ).wf(),
{
}

/// Replacing the innermost context by a well-formed one keeps the state well-formed.
proof fn lemma_set_last_wf(s: RawState, context: RawContextView)
    requires
        s.wf(),
        s.context_stack.len() > 0,
        s.context_wf(context, s.context_stack.len() - 1),
    ensures
        s.set_last(context).wf(),
{
    let t = s.set_last(context);
    assert forall|i: int| 0 <= i < t.context_stack.len() implies t.context_wf(
        #[trigger] t.context_stack[i],
        i,
    ) by {
        if i < s.context_stack.len() - 1 {
            assert(t.context_stack[i] == s.context_stack[i]);
            assert(s.context_wf(s.context_stack[i], i));
        }
    }
}

/// Entering a context keeps the state well-formed.
proof fn lemma_enter_wf(s: RawState, address: H160)
    requires
        s.wf(),
    ensures
        s.enter(address).wf(),
{
    let t = s.enter(address);
    assert forall|i: int| 0 <= i < t.context_stack.len() implies t.context_wf(
        #[trigger] t.context_stack[i],
        i,
    ) by {
        if i < s.context_stack.len() {
            assert(t.context_stack[i] == s.context_stack[i]);
            assert(s.context_wf(s.context_stack[i], i));
        }
    }
}

/// Recording an opcode keeps the state well-formed.
proof fn lemma_end_step_wf(s: RawState)
    requires
        s.wf(),
    ensures
        s.end_step().wf(),
{
    if s.in_step() {
        let last = s.context_stack.last();
        assert(s.context_wf(s.context_stack[s.context_stack.len() - 1], s.context_stack.len() - 1));
        lemma_set_last_wf(s, RawContextView { current_step: None, ..last });
        let taken = s.set_last(RawContextView { current_step: None, ..last });
        let t = s.end_step();
        assert forall|i: int| 0 <= i < t.context_stack.len() implies t.context_wf(
            #[trigger] t.context_stack[i],
            i,
        ) by {
            assert(taken.context_wf(taken.context_stack[i], i));
        }
        assert forall|i: int| 0 <= i < t.struct_logs.len() implies t.log_wf(
            #[trigger] t.struct_logs[i],
        ) by {
            if i < s.struct_logs.len() {
                assert(t.struct_logs[i] == s.struct_logs[i]);
                assert(s.log_wf(s.struct_logs[i]));
            }
        }
    }
}

/// Leaving a context keeps the state well-formed.
proof fn lemma_leave_wf(s: RawState, reason: ExitReason, return_value: Seq<u8>)
    requires
        s.wf(),
    ensures
        s.leave(reason, return_value).wf(),
{
    if s.context_stack.len() > 1 {
        let popped = RawState { context_stack: s.context_stack.drop_last(), ..s };
        assert forall|i: int| 0 <= i < popped.context_stack.len() implies popped.context_wf(
            #[trigger] popped.context_stack[i],
            i,
        ) by {
            assert(s.context_wf(s.context_stack[i], i));
        }
        if !s.disable_storage && reason is Succeed {
            let parent = popped.context_stack.last();
            let n = popped.context_stack.len() - 1;
            assert(popped.context_wf(popped.context_stack[n], n));
            let absorbed = parent.absorb(s.context_stack.last().all_changes());
            assert(absorbed.storage_cache.dom() =~= parent.storage_cache.dom());
            lemma_set_last_wf(popped, absorbed);
        }
    }
}

/// Every event of the machine that runs the code keeps the state well-formed.
pub proof fn runtime_step_wf(s: RawState, event: RuntimeEvent)
    requires
        s.wf(),
        s.admits_runtime(event),
    ensures
        s.runtime_step(event).wf(),
{
    let n = s.context_stack.len() - 1;
    if n >= 0 {
        assert(s.context_wf(s.context_stack[n], n));
    }
    match event {
        RuntimeEvent::Step { context, stack, memory, .. } => {
            lemma_enter_wf(s, context.address);
            let entered = s.enter(context.address);
            let t = s.runtime_step(event);
            let m = entered.context_stack.len() - 1;
            if m >= 0 && !s.step_exhausts(memory, stack) {
                assert(entered.context_wf(entered.context_stack[m], m));
                let charged = RawState {
                    remaining_memory_usage: s.after_stack(memory, stack),
                    ..entered
                };
                assert forall|i: int| 0 <= i < charged.context_stack.len() implies
                    charged.context_wf(#[trigger] charged.context_stack[i], i) by {
                    assert(entered.context_wf(entered.context_stack[i], i));
                }
                assert forall|i: int| 0 <= i < charged.struct_logs.len() implies charged.log_wf(
                    #[trigger] charged.struct_logs[i],
                ) by {
                    assert(entered.log_wf(entered.struct_logs[i]));
                }
                lemma_set_last_wf(charged, t.context_stack.last());
                assert(t == charged.set_last(t.context_stack.last()));
            } else {
                assert forall|i: int| 0 <= i < t.context_stack.len() implies t.context_wf(
                    #[trigger] t.context_stack[i],
                    i,
                ) by {
                    assert(entered.context_wf(entered.context_stack[i], i));
                }
            }
        },
        RuntimeEvent::StepResult { result, return_value } => {
            lemma_end_step_wf(s);
            match result {
                Err(Capture::Exit(reason)) => {
                    lemma_leave_wf(s.end_step(), reason, return_value@);
                },
                Err(Capture::Trap(_)) => {
                    let ended = s.end_step();
                    let t = s.runtime_step(event);
                    assert forall|i: int| 0 <= i < t.context_stack.len() implies t.context_wf(
                        #[trigger] t.context_stack[i],
                        i,
                    ) by {
                        assert(ended.context_wf(ended.context_stack[i], i));
                    }
                },
                Ok(_) => {},
            }
        },
        RuntimeEvent::SLoad { index, value, .. } => {
            if n >= 0 && !s.disable_storage {
                lemma_set_last_wf(s, s.note_slot(index, value).context_stack.last());
            }
        },
        RuntimeEvent::SStore { index, value, .. } => {
            if n >= 0 && !s.disable_storage {
                lemma_set_last_wf(s, s.note_slot(index, value).context_stack.last());
            }
        },
    }
}

/// Every event of the gasometer keeps the state well-formed.
pub proof fn gasometer_step_wf(s: RawState, event: GasometerEvent)
    requires
        s.wf(),
        s.admits_gasometer(event),
    ensures
        s.gasometer_step(event).wf(),
{
}

/// Every event keeps the state well-formed.
pub proof fn step_wf(s: RawState, event: Event)
    requires
        s.wf(),
        s.admits(event),
    ensures
        s.step(event).wf(),
{
    match event {
        Event::Gasometer(event) => {
            if s.remaining_memory_usage is Some {
                gasometer_step_wf(s, event);
            }
        },
        Event::Runtime(event) => {
            if s.remaining_memory_usage is Some {
                runtime_step_wf(s, event);
            }
        },
        _ => {},
    }
}

/// Once the budget is exhausted, no event changes anything any more.
pub proof fn exhausted_for_good(s: RawState, event: Event)
    requires
        s.remaining_memory_usage is None,
    ensures
        s.admits(event),
        s.step(event) == s,
{
}

/// The budget never grows.
pub proof fn budget_never_grows(s: RawState, event: Event)
    ensures
        s.remaining_memory_usage is None ==> s.step(event).remaining_memory_usage is None,
        s.step(event).remaining_memory_usage matches Some(after) ==> {
            &&& s.remaining_memory_usage matches Some(before)
            &&& after <= before
        },
{
}

/// What is to be recorded is settled from the start.
pub proof fn settings_kept(s: RawState, event: Event)
    ensures
        s.step(event).disable_storage == s.disable_storage,
        s.step(event).disable_memory == s.disable_memory,
        s.step(event).disable_stack == s.disable_stack,
{
}

/// Records are only ever added at the end, and only by the result of an opcode, one at a time.
pub proof fn records_only_appended(s: RawState, event: Event)
    ensures
        s.step(event).struct_logs == s.struct_logs || (event matches Event::Runtime(
            RuntimeEvent::StepResult { .. },
        ) && s.in_step() && s.step(event).struct_logs.len() == s.struct_logs.len() + 1 && s.step(
            event,
        ).struct_logs.drop_last() == s.struct_logs),
{
    assert(forall|log: StepLogView| s.struct_logs.push(log).drop_last() =~= s.struct_logs);
}

/// A step event that carries what the filter asks for can be taken in.
pub proof fn filtered_step_admitted(s: RawState, event: RuntimeEvent, filter: StepEventFilter)
    requires
        filter.enable_memory == !s.disable_memory,
        filter.enable_stack == !s.disable_stack,
        event matches RuntimeEvent::Step { stack, memory, .. } && {
            &&& memory is Some <==> filter.enable_memory
            &&& stack is Some <==> filter.enable_stack
        },
    ensures
        s.admits_runtime(event),
{
}

/// An opcode of a context, be it the first that opens it or a later one, its cost, and its result
/// give one record: that of the opcode, at the depth of its context, with the gas that the
/// gasometer told and the slots known of the account.
pub proof fn opcode_recorded(
    s: RawState,
    context: EvmContext,
    opcode: Seq<u8>,
    position: Result<u64, ExitReason>,
    stack: Option<Stack>,
    memory: Option<Memory>,
    cost: u64,
    snapshot: Snapshot,
)
    requires
        s.enter(context.address).context_stack.len() > 0,
        !s.step_exhausts(memory, stack),
        s.disable_storage || charge(
            s.after_stack(memory, stack),
            storage_cost(s.enter(context.address).context_stack.last().storage_cache),
        ) is Some,
    ensures
        ({
            let entered = s.enter(context.address);
            let begun = s.begin_step(context, opcode, position, stack, memory);
            let t = begun.note_cost(cost, snapshot).end_step();
            let log = t.struct_logs.last();
            &&& t.struct_logs.drop_last() == s.struct_logs
            &&& log.op == opcode
            &&& log.depth == entered.context_stack.len()
            &&& log.gas == snapshot.gas_left()
            &&& log.gas_cost == cost
            &&& position matches Ok(pc) ==> log.pc == (pc as usize)
            &&& position is Err ==> log.pc == 0
            &&& !s.disable_memory ==> log.memory == Some(memory_words(memory->Some_0.data@))
            &&& !s.disable_stack ==> log.stack == Some(stack->Some_0.data@)
            &&& !s.disable_storage ==> log.storage == Some(
                entered.context_stack.last().storage_cache,
            )
            &&& !t.in_step()
            &&& t.final_gas == snapshot.used_gas
        }),
{
    let begun = s.begin_step(context, opcode, position, stack, memory);
    let t = begun.note_cost(cost, snapshot).end_step();
    assert(t.struct_logs.drop_last() =~= s.struct_logs);
}

/// A slot that was read or written is in the next record of its context, unless the storage is
/// disabled.
pub proof fn slot_recorded(s: RawState, index: H256, value: H256)
    requires
        s.in_step(),
        !s.disable_storage,
        !s.note_slot(index, value).storage_exhausts(),
    ensures
        ({
            let log = s.note_slot(index, value).end_step().struct_logs.last();
            &&& log.storage is Some
            &&& log.storage->Some_0 == s.context_stack.last().storage_cache.insert(index, value)
        }),
{
}

/// A context that does not succeed leaves nothing behind: the contexts around it are as they
/// were.
pub proof fn failure_leaves_nothing(s: RawState, reason: ExitReason, return_value: Seq<u8>)
    requires
        s.context_stack.len() > 0,
        !(reason is Succeed),
    ensures
        s.leave(reason, return_value).context_stack == s.context_stack.drop_last(),
{
    if s.context_stack.len() == 1 {
        assert(s.context_stack.drop_last() =~= Seq::empty());
    }
}

/// No exit touches any context but the one around the one that ends.
pub proof fn outer_contexts_kept(s: RawState, reason: ExitReason, return_value: Seq<u8>, i: int)
    requires
        0 <= i < s.context_stack.len() - 2,
    ensures
        s.leave(reason, return_value).context_stack.len() == s.context_stack.len() - 1,
        s.leave(reason, return_value).context_stack[i] == s.context_stack[i],
{
}

/// A context that succeeds on the account of the context around it brings the slots that this
/// one knows up to date, and makes no other slot known to it.
pub proof fn same_account_updates_cache(
    s: RawState,
    reason: ExitReason,
    return_value: Seq<u8>,
)
    requires
        s.context_stack.len() > 1,
        !s.disable_storage,
        reason is Succeed,
        s.context_stack.last().address == s.context_stack[s.context_stack.len() - 2].address,
    ensures
        s.leave(reason, return_value).context_stack.last().storage_cache == refreshed(
            s.context_stack[s.context_stack.len() - 2].storage_cache,
            s.context_stack.last().storage_cache,
        ),
{
}

/// A context that succeeds on another account leaves its slots with the context around it, in
/// place of older ones, and does not touch the slots of that one unless contexts inside it have
/// changed them.
pub proof fn other_account_kept_apart(
    s: RawState,
    reason: ExitReason,
    return_value: Seq<u8>,
    slot: H256,
)
    requires
        s.context_stack.len() > 1,
        !s.disable_storage,
        reason is Succeed,
        s.context_stack.last().address != s.context_stack[s.context_stack.len() - 2].address,
        s.context_stack.last().storage_cache.contains_key(slot),
    ensures
        ({
            let inner = s.context_stack.last();
            let outer = s.context_stack[s.context_stack.len() - 2];
            let after = s.leave(reason, return_value).context_stack.last();
            &&& after.changes_of(inner.address).contains_key(slot)
            &&& after.changes_of(inner.address)[slot] == inner.storage_cache[slot]
            &&& !inner.global_storage_changes.contains_key(outer.address) ==> after.storage_cache
                == outer.storage_cache
        }),
{
}

/// Changes reach the next context of their account through contexts of other accounts: where a
/// context calls another account, which calls back, and both succeed, the slots that the first
/// knows get the values of the call back.
pub proof fn changes_reach_caller(
    outer: RawContextView,
    middle: RawContextView,
    inner: RawContextView,
    slot: H256,
)
    requires
        outer.address == inner.address,
        middle.address != inner.address,
        outer.storage_cache.contains_key(slot),
        inner.storage_cache.contains_key(slot),
    ensures
        outer.absorb(middle.absorb(inner.all_changes()).all_changes()).storage_cache[slot]
            == inner.storage_cache[slot],
{
}

/// Only the end of the outermost context sets the return value of the transaction.
pub proof fn return_value_of_outermost(s: RawState, event: Event)
    requires
        s.step(event).return_value != s.return_value,
    ensures
        event matches Event::Runtime(RuntimeEvent::StepResult {
            result: Err(Capture::Exit(_)),
            return_value,
        }) && s.context_stack.len() == 1 && s.step(event).return_value == return_value@,
{
}

/// What is known of an opcode that is about to run: the bytes of its memory and the words of its
/// stack.
pub open spec fn step_size(step: StepView) -> nat {
    (match step.memory {
        Some(memory) => memory.len(),
        None => 0,
    }) + (match step.stack {
        Some(stack) => stack.len(),
        None => 0,
    })
}

/// What is known of the opcodes that are about to run.
pub open spec fn contexts_size(contexts: Seq<RawContextView>) -> nat
    decreases contexts.len(),
{
    if contexts.len() == 0 {
        0
    } else {
        contexts_size(contexts.drop_last()) + match contexts.last().current_step {
            Some(step) => step_size(step),
            None => 0,
        }
    }
}

/// What a record holds: the least number of bytes that its memory stood for, the words of its
/// stack, and 64 bytes for each slot.
pub open spec fn log_size(log: StepLogView) -> nat {
    (match log.memory {
        Some(words) => if words.len() > 0 {
            (32 * words.len() - 31) as nat
        } else {
            0
        },
        None => 0,
    }) + (match log.stack {
        Some(stack) => stack.len(),
        None => 0,
    }) + (match log.storage {
        Some(storage) => storage_cost(storage),
        None => 0,
    })
}

/// What the records hold.
pub open spec fn logs_size(logs: Seq<StepLogView>) -> nat
    decreases logs.len(),
{
    if logs.len() == 0 {
        0
    } else {
        logs_size(logs.drop_last()) + log_size(logs.last())
    }
}

/// What the listener holds on record, and what is left of its budget.
pub open spec fn held_and_left(s: RawState) -> nat {
    logs_size(s.struct_logs) + contexts_size(s.context_stack) + match s.remaining_memory_usage {
        Some(left) => left as nat,
        None => 0,
    }
}

/// A new listener holds nothing, and its whole budget is left.
pub proof fn initial_budget(
    disable_storage: bool,
    disable_memory: bool,
    disable_stack: bool,
    raw_max_memory_usage: usize,
)
    ensures
        held_and_left(
            RawState::initial(disable_storage, disable_memory, disable_stack, raw_max_memory_usage),
        ) == raw_max_memory_usage,
{
}

proof fn lemma_contexts_size_push(contexts: Seq<RawContextView>, context: RawContextView)
    ensures
        contexts_size(contexts.push(context)) == contexts_size(contexts) + match context.current_step {
            Some(step) => step_size(step),
            None => 0,
        },
{
    assert(contexts.push(context).drop_last() =~= contexts);
}

proof fn lemma_logs_size_push(logs: Seq<StepLogView>, log: StepLogView)
    ensures
        logs_size(logs.push(log)) == logs_size(logs) + log_size(log),
{
    assert(logs.push(log).drop_last() =~= logs);
}

proof fn lemma_end_step_budget(s: RawState)
    ensures
        held_and_left(s.end_step()) <= held_and_left(s),
{
    if s.in_step() {
        let last = s.context_stack.last();
        lemma_contexts_size_push(
            s.context_stack.drop_last(),
            RawContextView { current_step: None, ..last },
        );
        if !s.storage_exhausts() {
            lemma_logs_size_push(s.struct_logs, s.end_step().struct_logs.last());
        }
    }
}

proof fn lemma_leave_budget(s: RawState, reason: ExitReason, return_value: Seq<u8>)
    ensures
        held_and_left(s.leave(reason, return_value)) <= held_and_left(s),
{
    reveal_with_fuel(contexts_size, 2);
    if s.context_stack.len() > 1 {
        let rest = s.context_stack.drop_last();
        lemma_contexts_size_push(
            rest.drop_last(),
            rest.last().absorb(s.context_stack.last().all_changes()),
        );
    }
}

/// The listener never holds more on record than its budget allows: whatever an event adds is
/// taken from what is left.
pub proof fn budget_respected(s: RawState, event: Event)
    ensures
        held_and_left(s.step(event)) <= held_and_left(s),
{
    let t = s.step(event);
    if s.remaining_memory_usage is Some {
        match event {
            Event::Gasometer(_) => {
                if s.context_stack.len() > 0 && t.context_stack.len() > 0 {
                    lemma_contexts_size_push(s.context_stack.drop_last(), t.context_stack.last());
                }
            },
            Event::Runtime(RuntimeEvent::Step { context, .. }) => {
                let entered = s.enter(context.address);
                lemma_contexts_size_push(s.context_stack, RawContextView::opened(context.address));
                if entered.context_stack.len() > 0 {
                    lemma_contexts_size_push(
                        entered.context_stack.drop_last(),
                        t.context_stack.last(),
                    );
                }
            },
            Event::Runtime(RuntimeEvent::StepResult { result, return_value }) => {
                lemma_end_step_budget(s);
                match result {
                    Err(Capture::Exit(reason)) => lemma_leave_budget(
                        s.end_step(),
                        reason,
                        return_value@,
                    ),
                    _ => {},
                }
            },
            Event::Runtime(_) => {
                if s.context_stack.len() > 0 {
                    lemma_contexts_size_push(s.context_stack.drop_last(), t.context_stack.last());
                }
            },
            _ => {},
        }
    }
}

} // verus!
