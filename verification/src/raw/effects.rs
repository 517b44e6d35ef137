//! What each event leaves behind: what a record holds, which context an opcode belongs to, and what
//! is known of the storage.

use vstd::prelude::*;

use super::memory::memory_words;
use super::model::{RawContextView, RawState, StepLogView, StepView};
use super::RawStepLog;
use crate::calls::context_type_of;
use crate::events::{Event, GasometerEvent, RuntimeEvent};
use crate::types::{Capture, EvmContext, ExitReason, Memory, Snapshot, Stack, H160, H256};

verus! {

/// A new listener has recorded nothing, has its whole budget, and has no context open.
pub proof fn starts_empty(
    disable_storage: bool,
    disable_memory: bool,
    disable_stack: bool,
    raw_max_memory_usage: usize,
)
    ensures
        ({
            let s = RawState::initial(
                disable_storage,
                disable_memory,
                disable_stack,
                raw_max_memory_usage,
            );
            &&& s.disable_storage == disable_storage
            &&& s.disable_memory == disable_memory
            &&& s.disable_stack == disable_stack
            &&& s.struct_logs.len() == 0
            &&& s.return_value.len() == 0
            &&& s.final_gas == 0
            &&& s.remaining_memory_usage == Some(raw_max_memory_usage)
            &&& s.context_stack.len() == 0
            &&& !s.new_context
        }),
{
}

/// Every event is taken in by the part of the listener that it is meant for, while there is a
/// budget; the events of the machinery around the contexts, and those that stand before
/// transactions, change nothing.
pub proof fn events_go_to_their_part(s: RawState, event: Event)
    requires
        s.remaining_memory_usage is Some,
    ensures
        event matches Event::Gasometer(e) ==> s.step(event) == s.gasometer_step(e) && s.admits(
            event,
        ) == s.admits_gasometer(e),
        event matches Event::Runtime(e) ==> s.step(event) == s.runtime_step(e) && s.admits(event)
            == s.admits_runtime(e),
        event is Evm || event is CallListNew ==> s.step(event) == s && s.admits(event),
{
}

/// What the contracts say of a record is what its fields hold.
pub proof fn record_fields(record: RawStepLog)
    ensures
        record@.depth == record.depth@,
        record@.gas == record.gas@,
        record@.gas_cost == record.gas_cost@,
        record@.op == record.op@,
        record@.pc == record.pc@,
        record.memory matches Some(words) ==> record@.memory == Some(words@),
        record.memory is None ==> record@.memory is None,
        record.stack matches Some(words) ==> record@.stack == Some(words@),
        record.stack is None ==> record@.stack is None,
        record.storage matches Some(slots) ==> record@.storage == Some(slots@),
        record.storage is None ==> record@.storage is None,
{
}

/// The cost of the transaction counts as gas used, and the next opcode is the first of a context.
pub proof fn transaction_begins(s: RawState, cost: u64, snapshot: Snapshot)
    requires
        s.remaining_memory_usage is Some,
    ensures
        ({
            let event = Event::Gasometer(GasometerEvent::RecordTransaction { cost, snapshot });
            &&& s.admits(event)
            &&& s.step(event) == (RawState { new_context: true, final_gas: cost, ..s })
        }),
{
}

/// A cost told while an opcode of the innermost context is about to run is the cost of that
/// opcode, and the gas left then is its gas; told at another time it counts for no opcode. Either
/// way the gas used so far is noted, unless no context is open. It makes no difference whether the
/// cost is a fixed or a computed one.
pub proof fn cost_is_noted(
    s: RawState,
    cost: u64,
    memory_gas: u64,
    gas_refund: i64,
    snapshot: Snapshot,
)
    requires
        s.remaining_memory_usage is Some,
        snapshot.used_gas + snapshot.memory_gas <= snapshot.gas_limit,
    ensures
        ({
            let fixed = Event::Gasometer(GasometerEvent::RecordCost { cost, snapshot });
            let computed = Event::Gasometer(
                GasometerEvent::RecordDynamicCost {
                    gas_cost: cost,
                    memory_gas,
                    gas_refund,
                    snapshot,
                },
            );
            let t = s.step(fixed);
            &&& s.admits(fixed)
            &&& s.admits(computed)
            &&& s.step(computed) == t
            &&& s.context_stack.len() == 0 ==> t == s
            &&& s.context_stack.len() > 0 ==> {
                let before = s.context_stack.last();
                let after = t.context_stack.last();
                &&& t.context_stack.len() == s.context_stack.len()
                &&& t.context_stack.drop_last() == s.context_stack.drop_last()
                &&& before.current_step matches Some(opcode) ==> after == (RawContextView {
                    current_step: Some(
                        StepView {
                            gas: (snapshot.gas_limit - snapshot.used_gas
                                - snapshot.memory_gas) as u64,
                            gas_cost: cost,
                            ..opcode
                        },
                    ),
                    ..before
                })
                &&& before.current_step is None ==> after == before
                &&& t == (RawState {
                    context_stack: t.context_stack,
                    final_gas: snapshot.used_gas,
                    ..s
                })
            }
        }),
{
    let t = s.step(Event::Gasometer(GasometerEvent::RecordCost { cost, snapshot }));
    if s.context_stack.len() > 0 {
        assert(t.context_stack.drop_last() =~= s.context_stack.drop_last());
    }
}

/// Refunds and stipends change nothing.
pub proof fn other_gas_changes_nothing(s: RawState, event: GasometerEvent)
    requires
        event is RecordRefund || event is RecordStipend,
    ensures
        s.admits(Event::Gasometer(event)),
        s.step(Event::Gasometer(event)) == s,
{
}

/// An opcode that is about to run is noted in its context: with its name, its position, the number
/// of open contexts, and the memory and the stack that are not disabled. If it is the first of a
/// context, one is opened for its account, of whose storage nothing is known. The bytes of the
/// memory and the words of the stack are taken from the budget.
pub proof fn opcode_is_noted(
    s: RawState,
    left: usize,
    context: EvmContext,
    opcode: Vec<u8>,
    position: Result<u64, ExitReason>,
    stack: Option<Stack>,
    memory: Option<Memory>,
)
    requires
        s.remaining_memory_usage == Some(left),
        s.new_context || s.context_stack.len() > 0,
        !s.disable_memory ==> memory is Some,
        !s.disable_stack ==> stack is Some,
        (if s.disable_memory {
            0
        } else {
            memory->Some_0.data@.len() as int
        }) + (if s.disable_stack {
            0
        } else {
            stack->Some_0.data@.len() as int
        }) <= left,
    ensures
        ({
            let event = Event::Runtime(
                RuntimeEvent::Step { context, opcode, position, stack, memory },
            );
            let t = s.step(event);
            let c = t.context_stack.last();
            let depth = s.context_stack.len() + if s.new_context {
                1int
            } else {
                0
            };
            &&& s.admits(event)
            &&& t.context_stack.len() == depth
            &&& t.context_stack.drop_last() == s.context_stack.take(depth - 1)
            &&& s.new_context ==> c.address == context.address && c.storage_cache == Map::<
                H256,
                H256,
            >::empty() && c.global_storage_changes == Map::<H160, Map<H256, H256>>::empty()
            &&& !s.new_context ==> c == (RawContextView {
                current_step: c.current_step,
                ..s.context_stack.last()
            })
            &&& c.current_step matches Some(noted) && {
                &&& noted.opcode == opcode@
                &&& noted.depth == depth
                &&& noted.gas == 0
                &&& noted.gas_cost == 0
                &&& position matches Ok(pc) ==> noted.position == pc as usize
                &&& position is Err ==> noted.position == 0
                &&& s.disable_memory ==> noted.memory is None
                &&& !s.disable_memory ==> noted.memory == Some(memory->Some_0.data@)
                &&& s.disable_stack ==> noted.stack is None
                &&& !s.disable_stack ==> noted.stack == Some(stack->Some_0.data@)
            }
            &&& t.remaining_memory_usage matches Some(remaining) && remaining == left - (
            if s.disable_memory {
                0
            } else {
                memory->Some_0.data@.len() as int
            }) - (if s.disable_stack {
                0
            } else {
                stack->Some_0.data@.len() as int
            })
            &&& t == (RawState {
                context_stack: t.context_stack,
                new_context: false,
                remaining_memory_usage: t.remaining_memory_usage,
                ..s
            })
        }),
{
    let t = s.step(
        Event::Runtime(RuntimeEvent::Step { context, opcode, position, stack, memory }),
    );
    assert(t.context_stack.drop_last() =~= s.context_stack.take(t.context_stack.len() - 1));
}

/// An opcode whose memory and stack do not fit in what is left exhausts the budget: it is not
/// noted, and nothing is recorded of it.
pub proof fn opcode_exhausts(
    s: RawState,
    left: usize,
    context: EvmContext,
    opcode: Vec<u8>,
    position: Result<u64, ExitReason>,
    stack: Option<Stack>,
    memory: Option<Memory>,
)
    requires
        s.remaining_memory_usage == Some(left),
        s.new_context || s.context_stack.len() > 0,
        !s.disable_memory ==> memory is Some,
        !s.disable_stack ==> stack is Some,
        (if s.disable_memory {
            0
        } else {
            memory->Some_0.data@.len() as int
        }) + (if s.disable_stack {
            0
        } else {
            stack->Some_0.data@.len() as int
        }) > left,
    ensures
        ({
            let event = Event::Runtime(
                RuntimeEvent::Step { context, opcode, position, stack, memory },
            );
            let t = s.step(event);
            &&& s.admits(event)
            &&& t.remaining_memory_usage is None
            &&& t.context_stack == if s.new_context {
                s.context_stack.push(
                    RawContextView {
                        storage_cache: Map::empty(),
                        address: context.address,
                        current_step: None,
                        global_storage_changes: Map::empty(),
                    },
                )
            } else {
                s.context_stack
            }
            &&& t == (RawState {
                context_stack: t.context_stack,
                new_context: false,
                remaining_memory_usage: None,
                ..s
            })
        }),
{
}

/// An opcode outside of any context changes nothing.
pub proof fn opcode_outside(s: RawState, event: RuntimeEvent)
    requires
        event is Step,
        !s.new_context,
        s.context_stack.len() == 0,
    ensures
        s.admits(Event::Runtime(event)),
        s.step(Event::Runtime(event)) == s,
{
}

/// The result of an opcode, whatever it is, records the opcode as it was noted, with the slots
/// known of the account unless the storage is disabled; each of them takes 64 bytes from the
/// budget.
pub proof fn result_is_recorded(
    s: RawState,
    left: usize,
    noted: StepView,
    result: Result<(), Capture<ExitReason, Vec<u8>>>,
    return_value: Vec<u8>,
)
    requires
        s.remaining_memory_usage == Some(left),
        s.context_stack.len() > 0,
        s.context_stack.last().current_step == Some(noted),
        s.disable_storage || s.context_stack.last().storage_cache.len() * 64 <= left,
    ensures
        ({
            let event = Event::Runtime(RuntimeEvent::StepResult { result, return_value });
            let t = s.step(event);
            &&& s.admits(event)
            &&& t.struct_logs == s.struct_logs.push(
                StepLogView {
                    depth: noted.depth,
                    gas: noted.gas as nat,
                    gas_cost: noted.gas_cost as nat,
                    memory: match noted.memory {
                        Some(bytes) => Some(memory_words(bytes)),
                        None => None,
                    },
                    op: noted.opcode,
                    pc: noted.position as nat,
                    stack: noted.stack,
                    storage: if s.disable_storage {
                        None
                    } else {
                        Some(s.context_stack.last().storage_cache)
                    },
                },
            )
            &&& t.remaining_memory_usage matches Some(remaining) && remaining == left
                - if s.disable_storage {
                0
            } else {
                s.context_stack.last().storage_cache.len() * 64
            }
            &&& t.final_gas == s.final_gas
        }),
{
}

/// A result without an opcode before it records nothing.
pub proof fn result_without_opcode(
    s: RawState,
    result: Result<(), Capture<ExitReason, Vec<u8>>>,
    return_value: Vec<u8>,
)
    requires
        s.context_stack.len() == 0 || s.context_stack.last().current_step is None,
    ensures
        ({
            let event = Event::Runtime(RuntimeEvent::StepResult { result, return_value });
            let t = s.step(event);
            &&& s.admits(event)
            &&& t.struct_logs == s.struct_logs
            &&& t.remaining_memory_usage == s.remaining_memory_usage
            &&& t.final_gas == s.final_gas
        }),
{
}

/// An opcode whose slots do not fit in what is left exhausts the budget: it is not recorded, and
/// its result leads to nothing.
pub proof fn result_exhausts(
    s: RawState,
    left: usize,
    result: Result<(), Capture<ExitReason, Vec<u8>>>,
    return_value: Vec<u8>,
)
    requires
        s.remaining_memory_usage == Some(left),
        s.context_stack.len() > 0,
        s.context_stack.last().current_step is Some,
        !s.disable_storage,
        s.context_stack.last().storage_cache.len() * 64 > left,
    ensures
        ({
            let event = Event::Runtime(RuntimeEvent::StepResult { result, return_value });
            let t = s.step(event);
            &&& s.admits(event)
            &&& t.context_stack == s.context_stack.drop_last().push(
                RawContextView { current_step: None, ..s.context_stack.last() },
            )
            &&& t == (RawState {
                context_stack: t.context_stack,
                remaining_memory_usage: None,
                ..s
            })
        }),
{
}

/// Unless the opcode ends its context, its result leaves the contexts as they are, but that the
/// opcode is no longer about to run. The next opcode is the first of a context if the opcode was
/// trapped and is one that opens a context, be it by a call or by a creation.
pub proof fn result_keeps_contexts(
    s: RawState,
    result: Result<(), Capture<ExitReason, Vec<u8>>>,
    return_value: Vec<u8>,
)
    requires
        s.remaining_memory_usage matches Some(left) && (s.disable_storage || s.context_stack.len()
            == 0 || s.context_stack.last().current_step is None
            || s.context_stack.last().storage_cache.len() * 64 <= left),
        !(result matches Err(Capture::Exit(_))),
    ensures
        ({
            let t = s.step(Event::Runtime(RuntimeEvent::StepResult { result, return_value }));
            &&& s.context_stack.len() == 0 ==> t.context_stack.len() == 0
            &&& s.context_stack.len() > 0 ==> t.context_stack == s.context_stack.drop_last().push(
                RawContextView { current_step: None, ..s.context_stack.last() },
            )
            &&& result matches Err(Capture::Trap(opcode)) ==> t.new_context == (s.new_context
                || context_type_of(opcode@) is Some)
            &&& result is Ok ==> t.new_context == s.new_context
            &&& t.return_value == s.return_value
        }),
{
    let t = s.step(Event::Runtime(RuntimeEvent::StepResult { result, return_value }));
    if s.context_stack.len() > 0 {
        assert(t.context_stack =~= s.context_stack.drop_last().push(
            RawContextView { current_step: None, ..s.context_stack.last() },
        ));
    }
}

/// An opcode that ends its context closes that one and no other. The end of the outermost context
/// gives the return value of the transaction; no other end does. Unless it succeeds, or if the
/// storage is disabled, the contexts around it are as they were.
pub proof fn exit_closes_one(s: RawState, reason: ExitReason, return_value: Vec<u8>)
    requires
        s.remaining_memory_usage matches Some(left) && (s.disable_storage || s.context_stack.len()
            == 0 || s.context_stack.last().current_step is None
            || s.context_stack.last().storage_cache.len() * 64 <= left),
    ensures
        ({
            let t = s.step(
                Event::Runtime(
                    RuntimeEvent::StepResult { result: Err(Capture::Exit(reason)), return_value },
                ),
            );
            let n = s.context_stack.len();
            &&& n == 0 ==> t.context_stack.len() == 0 && t.return_value == s.return_value
            &&& n == 1 ==> t.context_stack.len() == 0 && t.return_value == return_value@
            &&& n > 1 ==> {
                &&& t.return_value == s.return_value
                &&& t.context_stack.len() == n - 1
                &&& t.context_stack.drop_last() == s.context_stack.drop_last().drop_last()
                &&& !(reason is Succeed) || s.disable_storage ==> t.context_stack.last()
                    == s.context_stack[n - 2]
            }
            &&& t.new_context == s.new_context
        }),
{
    let t = s.step(
        Event::Runtime(
            RuntimeEvent::StepResult { result: Err(Capture::Exit(reason)), return_value },
        ),
    );
    if s.context_stack.len() > 1 {
        assert(t.context_stack.drop_last() =~= s.context_stack.drop_last().drop_last());
    }
}

/// A context that succeeds hands on what it leaves behind, that is the slots that it knows of its
/// own account and what contexts inside it have left behind of others, to the one around it: the
/// slots that this one knows of its own account get their new values, and no other slot becomes
/// known; of every other account the newer values take the place of the older ones, and the other
/// slots are kept.
pub proof fn success_hands_on(
    s: RawState,
    reason: ExitReason,
    return_value: Vec<u8>,
    account: H160,
    slot: H256,
)
    requires
        s.remaining_memory_usage matches Some(left) && (s.disable_storage || s.context_stack.len()
            == 0 || s.context_stack.last().current_step is None
            || s.context_stack.last().storage_cache.len() * 64 <= left),
        s.context_stack.len() > 1,
        !s.disable_storage,
        reason is Succeed,
    ensures
        ({
            let t = s.step(
                Event::Runtime(
                    RuntimeEvent::StepResult { result: Err(Capture::Exit(reason)), return_value },
                ),
            );
            let inner = s.context_stack.last();
            let before = s.context_stack[s.context_stack.len() - 2];
            let after = t.context_stack.last();
            let own = if before.address == inner.address {
                Some(inner.storage_cache)
            } else if inner.global_storage_changes.contains_key(before.address) {
                Some(inner.global_storage_changes[before.address])
            } else {
                None
            };
            let other = if account == inner.address {
                Some(inner.storage_cache)
            } else if inner.global_storage_changes.contains_key(account) {
                Some(inner.global_storage_changes[account])
            } else {
                None
            };
            &&& after.address == before.address
            &&& after.current_step == before.current_step
            &&& after.storage_cache.contains_key(slot) <==> before.storage_cache.contains_key(slot)
            &&& before.storage_cache.contains_key(slot) ==> after.storage_cache[slot] == if own
                is Some && own->Some_0.contains_key(slot) {
                own->Some_0[slot]
            } else {
                before.storage_cache[slot]
            }
            &&& account == before.address || other is None ==> {
                &&& after.global_storage_changes.contains_key(account)
                    <==> before.global_storage_changes.contains_key(account)
                &&& before.global_storage_changes.contains_key(account)
                    ==> after.global_storage_changes[account]
                    == before.global_storage_changes[account]
            }
            &&& account != before.address && other is Some ==> {
                let kept = after.global_storage_changes[account];
                let known = before.global_storage_changes.contains_key(account)
                    && before.global_storage_changes[account].contains_key(slot);
                &&& after.global_storage_changes.contains_key(account)
                &&& kept.contains_key(slot) <==> known || other->Some_0.contains_key(slot)
                &&& other->Some_0.contains_key(slot) ==> kept[slot] == other->Some_0[slot]
                &&& known && !other->Some_0.contains_key(slot) ==> kept[slot]
                    == before.global_storage_changes[account][slot]
            }
        }),
{
}

/// A slot that was read or written is known to the innermost context with its value; no other slot
/// and nothing else changes. With the storage disabled, or outside of any context, nothing does.
/// It makes no difference whether it was read or written, nor which account the event names.
pub proof fn slot_is_noted(
    s: RawState,
    address: H160,
    writer: H160,
    index: H256,
    value: H256,
    other: H256,
)
    requires
        s.remaining_memory_usage is Some,
    ensures
        ({
            let read = Event::Runtime(RuntimeEvent::SLoad { address, index, value });
            let written = Event::Runtime(RuntimeEvent::SStore { address: writer, index, value });
            let t = s.step(read);
            &&& s.admits(read)
            &&& s.admits(written)
            &&& s.step(written) == t
            &&& s.context_stack.len() == 0 || s.disable_storage ==> t == s
            &&& s.context_stack.len() > 0 && !s.disable_storage ==> {
                let before = s.context_stack.last();
                let after = t.context_stack.last();
                &&& t.context_stack.len() == s.context_stack.len()
                &&& t.context_stack.drop_last() == s.context_stack.drop_last()
                &&& after.storage_cache.contains_key(index)
                &&& after.storage_cache[index] == value
                &&& other != index ==> {
                    &&& after.storage_cache.contains_key(other)
                        <==> before.storage_cache.contains_key(other)
                    &&& before.storage_cache.contains_key(other) ==> after.storage_cache[other]
                        == before.storage_cache[other]
                }
                &&& after == (RawContextView { storage_cache: after.storage_cache, ..before })
                &&& t == (RawState { context_stack: t.context_stack, ..s })
            }
        }),
{
    let t = s.step(Event::Runtime(RuntimeEvent::SLoad { address, index, value }));
    if s.context_stack.len() > 0 {
        assert(t.context_stack.drop_last() =~= s.context_stack.drop_last());
    }
}

/// A cost needs enough gas while an opcode is about to run, and an opcode needs the memory and the
/// stack that are to be recorded, unless it is outside of any context or the memory exhausts the
/// budget. All else can be taken in.
pub proof fn what_is_taken_in(s: RawState, left: usize, event: Event)
    requires
        s.remaining_memory_usage == Some(left),
    ensures
        ({
            let in_opcode = s.context_stack.len() > 0
                && s.context_stack.last().current_step is Some;
            match event {
                Event::Gasometer(GasometerEvent::RecordCost { snapshot, .. }) => s.admits(event)
                    <==> !in_opcode || snapshot.used_gas + snapshot.memory_gas
                    <= snapshot.gas_limit,
                Event::Gasometer(GasometerEvent::RecordDynamicCost { snapshot, .. }) => s.admits(
                    event,
                ) <==> !in_opcode || snapshot.used_gas + snapshot.memory_gas <= snapshot.gas_limit,
                Event::Runtime(RuntimeEvent::Step { stack, memory, .. }) => s.admits(event) <==> {
                    ||| !s.new_context && s.context_stack.len() == 0
                    ||| s.disable_memory && (s.disable_stack || stack is Some)
                    ||| !s.disable_memory && memory is Some && (s.disable_stack || stack is Some
                        || memory->Some_0.data@.len() > left)
                },
                _ => s.admits(event),
            }
        }),
{
}

/// An opcode, its cost, a slot that it reads or writes, and its result give one record: with the
/// name, the position and the depth of the opcode, the cost that was told, the gas left then, its
/// memory and its stack, and the slots known of the account, of which the one that it has read or
/// written has the value told and the others are as they were.
pub proof fn opcode_is_traced(
    s: RawState,
    left: usize,
    context: EvmContext,
    opcode: Vec<u8>,
    position: Result<u64, ExitReason>,
    stack: Option<Stack>,
    memory: Option<Memory>,
    gas_event: GasometerEvent,
    slot_event: RuntimeEvent,
    result: Result<(), Capture<ExitReason, Vec<u8>>>,
    return_value: Vec<u8>,
)
    requires
        s.wf(),
        s.remaining_memory_usage == Some(left),
        s.new_context || s.context_stack.len() > 0,
        !s.disable_memory ==> memory is Some,
        !s.disable_stack ==> stack is Some,
        match gas_event {
            GasometerEvent::RecordCost { snapshot, .. } => snapshot.used_gas + snapshot.memory_gas
                <= snapshot.gas_limit,
            GasometerEvent::RecordDynamicCost { snapshot, .. } => snapshot.used_gas
                + snapshot.memory_gas <= snapshot.gas_limit,
            _ => false,
        },
        slot_event is SLoad || slot_event is SStore,
        (if s.disable_memory {
            0
        } else {
            memory->Some_0.data@.len() as int
        }) + (if s.disable_stack {
            0
        } else {
            stack->Some_0.data@.len() as int
        }) + (if s.disable_storage {
            0
        } else if s.new_context {
            64nat
        } else {
            64 * (s.context_stack.last().storage_cache.len() + 1)
        }) <= left,
    ensures
        ({
            let noted = s.step(
                Event::Runtime(RuntimeEvent::Step { context, opcode, position, stack, memory }),
            );
            let ran = noted.step(Event::Gasometer(gas_event)).step(Event::Runtime(slot_event));
            let t = ran.step(Event::Runtime(RuntimeEvent::StepResult { result, return_value }));
            let record = t.struct_logs.last();
            let known = if s.new_context {
                Map::empty()
            } else {
                s.context_stack.last().storage_cache
            };
            &&& t.struct_logs.len() == s.struct_logs.len() + 1
            &&& t.struct_logs.drop_last() == s.struct_logs
            &&& record.op == opcode@
            &&& position matches Ok(pc) ==> record.pc == pc as usize
            &&& position is Err ==> record.pc == 0
            &&& record.depth == s.context_stack.len() + if s.new_context {
                1int
            } else {
                0
            }
            &&& match gas_event {
                GasometerEvent::RecordCost { cost, snapshot } => record.gas_cost == cost
                    && record.gas == snapshot.gas_limit - snapshot.used_gas - snapshot.memory_gas
                    && t.final_gas == snapshot.used_gas,
                GasometerEvent::RecordDynamicCost { gas_cost, snapshot, .. } => record.gas_cost
                    == gas_cost && record.gas == snapshot.gas_limit - snapshot.used_gas
                    - snapshot.memory_gas && t.final_gas == snapshot.used_gas,
                _ => false,
            }
            &&& record.memory == if s.disable_memory {
                None
            } else {
                Some(memory_words(memory->Some_0.data@))
            }
            &&& record.stack == if s.disable_stack {
                None
            } else {
                Some(stack->Some_0.data@)
            }
            &&& s.disable_storage ==> record.storage is None
            &&& !s.disable_storage ==> match slot_event {
                RuntimeEvent::SLoad { index, value, .. } => record.storage == Some(
                    known.insert(index, value),
                ),
                RuntimeEvent::SStore { index, value, .. } => record.storage == Some(
                    known.insert(index, value),
                ),
                _ => false,
            }
        }),
{
    let step_event = Event::Runtime(
        RuntimeEvent::Step { context, opcode, position, stack, memory },
    );
    opcode_is_noted(s, left, context, opcode, position, stack, memory);
    let noted = s.step(step_event);
    match gas_event {
        GasometerEvent::RecordCost { cost, snapshot } => cost_is_noted(noted, cost, 0, 0, snapshot),
        GasometerEvent::RecordDynamicCost { gas_cost, memory_gas, gas_refund, snapshot } =>
            cost_is_noted(noted, gas_cost, memory_gas, gas_refund, snapshot),
        _ => {},
    }
    let paid = noted.step(Event::Gasometer(gas_event));
    let (index, value) = match slot_event {
        RuntimeEvent::SLoad { index, value, .. } => (index, value),
        RuntimeEvent::SStore { index, value, .. } => (index, value),
        _ => ((0, 0), (0, 0)),
    };
    match slot_event {
        RuntimeEvent::SLoad { address, .. } => slot_is_noted(
            paid,
            address,
            address,
            index,
            value,
            index,
        ),
        RuntimeEvent::SStore { address, .. } => slot_is_noted(
            paid,
            address,
            address,
            index,
            value,
            index,
        ),
        _ => {},
    }
    let ran = paid.step(Event::Runtime(slot_event));
    let known = if s.new_context {
        Map::empty()
    } else {
        s.context_stack.last().storage_cache
    };
    let last = ran.context_stack.last();
    if s.context_stack.len() > 0 {
        assert(s.context_wf(
            s.context_stack[s.context_stack.len() - 1],
            s.context_stack.len() - 1,
        ));
    }
    assert(known.dom().finite());
    if !s.disable_storage {
        assert(last.storage_cache =~= known.insert(index, value));
        assert(last.storage_cache.dom() =~= known.dom().insert(index));
        assert(last.storage_cache.len() <= known.len() + 1);
    }
    result_is_recorded(
        ran,
        noted.remaining_memory_usage->Some_0,
        last.current_step->Some_0,
        result,
        return_value,
    );
    let t = ran.step(Event::Runtime(RuntimeEvent::StepResult { result, return_value }));
    assert(t.struct_logs.drop_last() =~= s.struct_logs);
}

/// The opcode after one that was trapped and opens a context, by a call or by a creation, is the
/// first of a new context for its account: its record is one deeper, and shows no slot of the
/// context around it.
pub proof fn trap_leads_deeper(
    s: RawState,
    left: usize,
    noted: StepView,
    trapped: Vec<u8>,
    value: Vec<u8>,
    context: EvmContext,
    opcode: Vec<u8>,
    position: Result<u64, ExitReason>,
    stack: Option<Stack>,
    memory: Option<Memory>,
    result: Result<(), Capture<ExitReason, Vec<u8>>>,
    return_value: Vec<u8>,
)
    requires
        s.wf(),
        s.remaining_memory_usage == Some(left),
        s.context_stack.len() > 0,
        s.context_stack.last().current_step == Some(noted),
        context_type_of(trapped@) is Some,
        !s.disable_memory ==> memory is Some,
        !s.disable_stack ==> stack is Some,
        (if s.disable_memory {
            0
        } else {
            memory->Some_0.data@.len() as int
        }) + (if s.disable_stack {
            0
        } else {
            stack->Some_0.data@.len() as int
        }) + (if s.disable_storage {
            0
        } else {
            64 * s.context_stack.last().storage_cache.len()
        }) <= left,
    ensures
        ({
            let after = s.step(
                Event::Runtime(
                    RuntimeEvent::StepResult {
                        result: Err(Capture::Trap(trapped)),
                        return_value: value,
                    },
                ),
            );
            let begun = after.step(
                Event::Runtime(RuntimeEvent::Step { context, opcode, position, stack, memory }),
            );
            let t = begun.step(Event::Runtime(RuntimeEvent::StepResult { result, return_value }));
            &&& after.struct_logs.len() == s.struct_logs.len() + 1
            &&& after.struct_logs.last().depth == s.context_stack.len()
            &&& begun.context_stack.len() == s.context_stack.len() + 1
            &&& begun.context_stack.last().address == context.address
            &&& begun.context_stack.drop_last().drop_last() == s.context_stack.drop_last()
            &&& t.struct_logs.len() == s.struct_logs.len() + 2
            &&& t.struct_logs.last().op == opcode@
            &&& t.struct_logs.last().depth == after.struct_logs.last().depth + 1
            &&& !s.disable_storage ==> t.struct_logs.last().storage == Some(
                Map::<H256, H256>::empty(),
            )
        }),
{
    assert(s.context_wf(s.context_stack[s.context_stack.len() - 1], s.context_stack.len() - 1));
    result_is_recorded(s, left, noted, Err(Capture::Trap(trapped)), value);
    result_keeps_contexts(s, Err(Capture::Trap(trapped)), value);
    let after = s.step(
        Event::Runtime(
            RuntimeEvent::StepResult { result: Err(Capture::Trap(trapped)), return_value: value },
        ),
    );
    assert(after.disable_memory == s.disable_memory && after.disable_stack == s.disable_stack
        && after.disable_storage == s.disable_storage);
    opcode_is_noted(
        after,
        after.remaining_memory_usage->Some_0,
        context,
        opcode,
        position,
        stack,
        memory,
    );
    let begun = after.step(
        Event::Runtime(RuntimeEvent::Step { context, opcode, position, stack, memory }),
    );
    assert(begun.context_stack.drop_last() =~= after.context_stack);
    assert(after.context_stack.drop_last() =~= s.context_stack.drop_last());
    assert(begun.context_stack.last().storage_cache.len() == 0 || !after.new_context);
    result_is_recorded(
        begun,
        begun.remaining_memory_usage->Some_0,
        begun.context_stack.last().current_step->Some_0,
        result,
        return_value,
    );
}

} // verus!
