//! What each event leaves behind: what a context is opened with, what its entry holds, and what
//! stays as it was.

use vstd::prelude::*;
use vstd::utf8::encode_utf8;

use super::laws::lemma_insert_entry;
use super::model::{ClState, ContextView, TracingVersion};
use crate::calls::{
    call_result_view, context_type_of, create_result_view, CallInnerView, CallResultView,
    CallType, CallView, ContextType, CreateResultView,
};
use crate::events::{Event, EvmEvent, GasometerEvent, RuntimeEvent};
use crate::types::{
    Capture, CreateScheme, EvmContext, ExitReason, Snapshot, Transfer, H160, H256, U256,
};

verus! {

/// Whether the lists differ in one entry: it is added to the last list, or to the first one if
/// there was none.
pub open spec fn adds_one(
    before: Seq<Map<u32, CallView>>,
    after: Seq<Map<u32, CallView>>,
    key: u32,
    entry: CallView,
) -> bool {
    if before.len() == 0 {
        after.len() == 1 && after[0] == Map::<u32, CallView>::empty().insert(key, entry)
    } else {
        &&& after.len() == before.len()
        &&& after.last() == before.last().insert(key, entry)
        &&& forall|i: int| 0 <= i < before.len() - 1 ==> #[trigger] after[i] == before[i]
    }
}

/// Whether one context was opened below those that there were: the innermost of them counts it,
/// and nothing else of them changes.
pub open spec fn opens_below(before: Seq<ContextView>, after: Seq<ContextView>) -> bool {
    &&& after.len() == before.len() + 1
    &&& forall|i: int| 0 <= i < before.len() - 1 ==> #[trigger] after[i] == before[i]
    &&& before.len() > 0 ==> after[before.len() - 1] == (ContextView {
        subtraces: (before.last().subtraces + 1) as u32,
        ..before.last()
    })
}

/// A new listener has no lists and no contexts, knows nothing, and starts its keys at zero.
pub proof fn starts_empty()
    ensures
        ({
            let s = ClState::initial();
            &&& s.entries.len() == 0
            &&& s.context_stack.len() == 0
            &&& s.entries_next_index == 0
            &&& s.step_result_entry is None
            &&& s.call_type is None
            &&& s.transaction_cost == 0
            &&& s.version == TracingVersion::Legacy
            &&& !s.skip_next_context
            &&& !s.record_transaction_event_only
            &&& !s.transaction_known
            &&& s.call_list_first_transaction
        }),
{
}

/// Every event is taken in by the part of the listener that it is meant for.
pub proof fn events_go_to_their_part(s: ClState, event: Event)
    ensures
        event matches Event::Gasometer(e) ==> s.step(event) == s.gasometer_step(e) && s.admits(
            event,
        ) == s.admits_gasometer(e),
        event matches Event::Runtime(e) ==> s.step(event) == s.runtime_step(e) && s.admits(event)
            == s.admits_runtime(e),
        event matches Event::Evm(e) ==> s.step(event) == s.evm_step(e) && s.admits(event)
            == s.admits_evm(e),
{
}

/// A transaction that is a call opens a context for the account called, with the value and the
/// data that it carries, under the next key and with an empty path.
pub proof fn transact_call_opens(
    s: ClState,
    caller: H160,
    address: H160,
    value: U256,
    data: Vec<u8>,
    gas_limit: u64,
)
    requires
        s.entries_next_index < u32::MAX,
    ensures
        ({
            let event = Event::Evm(
                EvmEvent::TransactCall { caller, address, value, data, gas_limit },
            );
            let t = s.step(event);
            &&& s.admits(event)
            &&& t.context_stack.len() == s.context_stack.len() + 1
            &&& t.context_stack.drop_last() == s.context_stack
            &&& t.context_stack.last() == (ContextView {
                entries_index: s.entries_next_index,
                context_type: ContextType::Call(CallType::Call),
                from: caller,
                trace_address: Seq::empty(),
                subtraces: 0,
                value: value@,
                gas: 0,
                start_gas: None,
                data: data@,
                to: address,
            })
            &&& t == (ClState {
                context_stack: t.context_stack,
                entries_next_index: (s.entries_next_index + 1) as u32,
                version: TracingVersion::EarlyTransact,
                skip_next_context: true,
                record_transaction_event_only: false,
                transaction_known: true,
                ..s
            })
        }),
{
    let t = s.step(
        Event::Evm(EvmEvent::TransactCall { caller, address, value, data, gas_limit }),
    );
    assert(t.context_stack.drop_last() =~= s.context_stack);
}

/// A transaction that creates a contract opens a context for the new account, with the value and
/// the code that it carries; a salt makes no difference.
pub proof fn transact_create_opens(
    s: ClState,
    caller: H160,
    value: U256,
    init_code: Vec<u8>,
    salt: H256,
    gas_limit: u64,
    address: H160,
)
    requires
        s.entries_next_index < u32::MAX,
    ensures
        ({
            let event = Event::Evm(
                EvmEvent::TransactCreate { caller, value, init_code, gas_limit, address },
            );
            let salted = Event::Evm(
                EvmEvent::TransactCreate2 { caller, value, init_code, salt, gas_limit, address },
            );
            let t = s.step(event);
            &&& s.admits(event)
            &&& s.admits(salted)
            &&& s.step(salted) == t
            &&& t.context_stack.len() == s.context_stack.len() + 1
            &&& t.context_stack.drop_last() == s.context_stack
            &&& t.context_stack.last() == (ContextView {
                entries_index: s.entries_next_index,
                context_type: ContextType::Create,
                from: caller,
                trace_address: Seq::empty(),
                subtraces: 0,
                value: value@,
                gas: 0,
                start_gas: None,
                data: init_code@,
                to: address,
            })
            &&& t == (ClState {
                context_stack: t.context_stack,
                entries_next_index: (s.entries_next_index + 1) as u32,
                version: TracingVersion::EarlyTransact,
                skip_next_context: true,
                record_transaction_event_only: false,
                transaction_known: true,
                ..s
            })
        }),
{
    let t = s.step(
        Event::Evm(EvmEvent::TransactCreate { caller, value, init_code, gas_limit, address }),
    );
    assert(t.context_stack.drop_last() =~= s.context_stack);
}

/// A call opens a context for the account whose code is called, with the value that the code sees
/// and the input. It comes from the account that the context around it was opened for or, if
/// there is none, from the caller. Its kind is the one announced or, if none is, what the call
/// says of itself.
pub proof fn call_opens(
    s: ClState,
    code_address: H160,
    transfer: Option<Transfer>,
    input: Vec<u8>,
    target_gas: Option<u64>,
    is_static: bool,
    context: EvmContext,
)
    requires
        !s.skip_next_context,
        s.entries_next_index < u32::MAX,
        s.context_stack.len() > 0 ==> s.context_stack.last().subtraces < u32::MAX,
    ensures
        ({
            let event = Event::Evm(
                EvmEvent::Call { code_address, transfer, input, target_gas, is_static, context },
            );
            let t = s.step(event);
            let c = t.context_stack.last();
            &&& s.admits(event)
            &&& opens_below(s.context_stack, t.context_stack)
            &&& c.to == code_address
            &&& c.data == input@
            &&& c.value == context.apparent_value@
            &&& s.context_stack.len() > 0 ==> c.from == s.context_stack.last().to
                && c.trace_address == s.context_stack.last().trace_address.push(
                s.context_stack.last().subtraces,
            )
            &&& s.context_stack.len() == 0 ==> c.from == context.caller && c.trace_address.len()
                == 0
            &&& s.call_type matches Some(kind) ==> c.context_type == ContextType::Call(kind)
            &&& s.call_type is None && is_static ==> c.context_type == ContextType::Call(
                CallType::StaticCall,
            )
            &&& s.call_type is None && !is_static ==> c.context_type == ContextType::Call(
                CallType::Call,
            )
            &&& c.entries_index == s.entries_next_index
            &&& c.subtraces == 0
            &&& c.gas == 0
            &&& c.start_gas is None
            &&& t == (ClState {
                context_stack: t.context_stack,
                entries_next_index: (s.entries_next_index + 1) as u32,
                record_transaction_event_only: false,
                transaction_known: true,
                ..s
            })
        }),
{
}

/// A creation opens a context for the new account, with the value and the code that it carries.
/// It comes from the account that the event names.
pub proof fn create_opens(
    s: ClState,
    caller: H160,
    address: H160,
    scheme: CreateScheme,
    value: U256,
    init_code: Vec<u8>,
    target_gas: Option<u64>,
)
    requires
        !s.skip_next_context,
        s.entries_next_index < u32::MAX,
        s.context_stack.len() > 0 ==> s.context_stack.last().subtraces < u32::MAX,
    ensures
        ({
            let event = Event::Evm(
                EvmEvent::Create { caller, address, scheme, value, init_code, target_gas },
            );
            let t = s.step(event);
            let c = t.context_stack.last();
            &&& s.admits(event)
            &&& opens_below(s.context_stack, t.context_stack)
            &&& c.to == address
            &&& c.data == init_code@
            &&& c.value == value@
            &&& c.from == caller
            &&& c.context_type == ContextType::Create
            &&& s.context_stack.len() > 0 ==> c.trace_address
                == s.context_stack.last().trace_address.push(s.context_stack.last().subtraces)
            &&& s.context_stack.len() == 0 ==> c.trace_address.len() == 0
            &&& c.entries_index == s.entries_next_index
            &&& c.subtraces == 0
            &&& c.gas == 0
            &&& c.start_gas is None
            &&& t == (ClState {
                context_stack: t.context_stack,
                entries_next_index: (s.entries_next_index + 1) as u32,
                record_transaction_event_only: false,
                transaction_known: true,
                ..s
            })
        }),
{
}

/// The call or creation that follows the announcement of its transaction changes nothing but that
/// the next one is not skipped, and that more than the cost of the transaction is known.
pub proof fn skipped_once(s: ClState, event: EvmEvent)
    requires
        event is Call || event is Create,
        s.skip_next_context,
    ensures
        s.admits(Event::Evm(event)),
        s.step(Event::Evm(event)) == (ClState {
            skip_next_context: false,
            record_transaction_event_only: false,
            transaction_known: true,
            ..s
        }),
{
}

/// The destruction of an account is listed at once under the next key, with the account, the one
/// that gets the balance, and the balance. It is counted by the innermost context, and its path is
/// that of an entry below it.
pub proof fn destruction_is_listed(s: ClState, address: H160, target: H160, balance: U256)
    requires
        s.entries_next_index < u32::MAX,
        s.context_stack.len() > 0 ==> s.context_stack.last().subtraces < u32::MAX,
    ensures
        ({
            let event = Event::Evm(EvmEvent::Suicide { address, target, balance });
            let t = s.step(event);
            &&& s.admits(event)
            &&& adds_one(
                s.entries,
                t.entries,
                s.entries_next_index,
                CallView {
                    from: address,
                    trace_address: if s.context_stack.len() > 0 {
                        s.context_stack.last().trace_address.push(s.context_stack.last().subtraces)
                    } else {
                        Seq::empty()
                    },
                    subtraces: 0,
                    value: 0,
                    gas: 0,
                    gas_used: 0,
                    inner: CallInnerView::SelfDestruct { to: target, balance: balance@ },
                },
            )
            &&& s.context_stack.len() == 0 ==> t.context_stack.len() == 0
            &&& s.context_stack.len() > 0 ==> opens_below(
                s.context_stack,
                t.context_stack.push(s.context_stack.last()),
            )
            &&& t == (ClState {
                entries: t.entries,
                context_stack: t.context_stack,
                entries_next_index: (s.entries_next_index + 1) as u32,
                ..s
            })
        }),
{
}

/// The exit of a call lists it under its key, with all that it was opened with, the gas left, the
/// gas used since the gasometer first spoke, the entries counted below it, and its outcome. The
/// cost of the transaction counts for the first context of all.
pub proof fn exit_lists_call(
    s: ClState,
    reason: ExitReason,
    return_value: Vec<u8>,
    call_type: CallType,
    start: u64,
)
    requires
        s.step_result_entry is None,
        s.context_stack.len() > 0,
        s.context_stack.last().context_type == ContextType::Call(call_type),
        s.context_stack.last().start_gas == Some(start) || s.context_stack.last().start_gas is None
            && start == 0,
        s.context_stack.last().gas <= start,
        s.context_stack.last().entries_index == 0 ==> start - s.context_stack.last().gas
            + s.transaction_cost <= u64::MAX,
    ensures
        ({
            let event = Event::Evm(EvmEvent::Exit { reason, return_value });
            let c = s.context_stack.last();
            let t = s.step(event);
            &&& s.admits(event)
            &&& adds_one(
                s.entries,
                t.entries,
                c.entries_index,
                CallView {
                    from: c.from,
                    trace_address: c.trace_address,
                    subtraces: c.subtraces,
                    value: c.value,
                    gas: c.gas as nat,
                    gas_used: if c.entries_index == 0 {
                        (start - c.gas + s.transaction_cost) as nat
                    } else {
                        (start - c.gas) as nat
                    },
                    inner: CallInnerView::Call {
                        call_type,
                        to: c.to,
                        input: c.data,
                        res: call_result_view(reason, return_value@),
                    },
                },
            )
            &&& t == (ClState {
                entries: t.entries,
                context_stack: s.context_stack.drop_last(),
                record_transaction_event_only: false,
                transaction_known: true,
                ..s
            })
        }),
{
}

/// The exit of a creation lists it likewise. If it succeeds, in whatever way, the entry has the
/// created account and the returned bytes as its code.
pub proof fn exit_lists_creation(
    s: ClState,
    reason: ExitReason,
    return_value: Vec<u8>,
    start: u64,
)
    requires
        s.step_result_entry is None,
        s.context_stack.len() > 0,
        s.context_stack.last().context_type == ContextType::Create,
        s.context_stack.last().start_gas == Some(start) || s.context_stack.last().start_gas is None
            && start == 0,
        s.context_stack.last().gas <= start,
        s.context_stack.last().entries_index == 0 ==> start - s.context_stack.last().gas
            + s.transaction_cost <= u64::MAX,
    ensures
        ({
            let event = Event::Evm(EvmEvent::Exit { reason, return_value });
            let c = s.context_stack.last();
            let t = s.step(event);
            &&& s.admits(event)
            &&& adds_one(
                s.entries,
                t.entries,
                c.entries_index,
                CallView {
                    from: c.from,
                    trace_address: c.trace_address,
                    subtraces: c.subtraces,
                    value: c.value,
                    gas: c.gas as nat,
                    gas_used: if c.entries_index == 0 {
                        (start - c.gas + s.transaction_cost) as nat
                    } else {
                        (start - c.gas) as nat
                    },
                    inner: CallInnerView::Create {
                        init: c.data,
                        res: if reason is Succeed {
                            CreateResultView::Success { address: c.to, code: return_value@ }
                        } else {
                            create_result_view(reason, c.to, return_value@)
                        },
                    },
                },
            )
            &&& t == (ClState {
                entries: t.entries,
                context_stack: s.context_stack.drop_last(),
                record_transaction_event_only: false,
                transaction_known: true,
                ..s
            })
        }),
{
}

/// An exit lists the entry that waits, if there is one, and then closes no context; with neither
/// an entry that waits nor an open context it lists nothing.
pub proof fn exit_lists_waiting(s: ClState, reason: ExitReason, return_value: Vec<u8>)
    ensures
        ({
            let event = Event::Evm(EvmEvent::Exit { reason, return_value });
            let t = s.step(event);
            &&& s.step_result_entry matches Some(entry) ==> {
                &&& s.admits(event)
                &&& adds_one(s.entries, t.entries, entry.0, entry.1)
                &&& t == (ClState {
                    entries: t.entries,
                    step_result_entry: None,
                    record_transaction_event_only: false,
                    transaction_known: true,
                    ..s
                })
            }
            &&& s.step_result_entry is None && s.context_stack.len() == 0 ==> {
                &&& s.admits(event)
                &&& t == (ClState {
                    record_transaction_event_only: false,
                    transaction_known: true,
                    ..s
                })
            }
        }),
{
}

/// A step that ends a context makes the same entry as the exit would. Where transactions are not
/// announced it is listed at once; where they are, it waits, and the lists stay as they are.
pub proof fn step_ends_context(s: ClState, reason: ExitReason, return_value: Vec<u8>)
    requires
        s.step_result_entry is None,
        s.admits(Event::Evm(EvmEvent::Exit { reason, return_value })),
    ensures
        ({
            let event = Event::Runtime(
                RuntimeEvent::StepResult { result: Err(Capture::Exit(reason)), return_value },
            );
            let exited = s.step(Event::Evm(EvmEvent::Exit { reason, return_value }));
            let t = s.step(event);
            &&& s.admits(event)
            &&& s.context_stack.len() == 0 ==> t == s
            &&& s.context_stack.len() > 0 && s.version == TracingVersion::Legacy ==> t == (ClState {
                entries: exited.entries,
                context_stack: s.context_stack.drop_last(),
                ..s
            })
            &&& s.context_stack.len() > 0 && s.version == TracingVersion::EarlyTransact ==> {
                &&& t.step_result_entry matches Some(entry) && {
                    &&& entry.0 == s.context_stack.last().entries_index
                    &&& entry.1 == exited.entries.last()[entry.0]
                }
                &&& t == (ClState {
                    context_stack: s.context_stack.drop_last(),
                    step_result_entry: t.step_result_entry,
                    ..s
                })
            }
        }),
{
    if s.context_stack.len() > 0 {
        let c = s.context_stack.last();
        lemma_insert_entry(
            ClState { context_stack: s.context_stack.drop_last(), ..s },
            c.entries_index,
            c.exit_entry(s.transaction_cost, reason, return_value@),
        );
    }
}

/// A step that ends a context while the entry of another waits, where transactions are announced,
/// replaces that entry by its own and changes nothing else that it would not without it. With no
/// context open such a step changes nothing, whether an entry waits or not.
pub proof fn later_step_replaces_waiting(s: ClState, reason: ExitReason, return_value: Vec<u8>)
    ensures
        ({
            let event = Event::Runtime(
                RuntimeEvent::StepResult { result: Err(Capture::Exit(reason)), return_value },
            );
            &&& s.context_stack.len() > 0 && s.version == TracingVersion::EarlyTransact ==> s.step(
                event,
            ) == (ClState { step_result_entry: None, ..s }).step(event)
            &&& s.context_stack.len() == 0 ==> s.step(event) == s
        }),
{
}

/// A trap announces the kind of the next call if it is one of the opcodes that call; any other
/// trap, that of a creation included, changes nothing.
pub proof fn trap_announces_kind(s: ClState, opcode: Vec<u8>, return_value: Vec<u8>)
    ensures
        ({
            let event = Event::Runtime(
                RuntimeEvent::StepResult { result: Err(Capture::Trap(opcode)), return_value },
            );
            let t = s.step(event);
            &&& s.admits(event)
            &&& context_type_of(opcode@) matches Some(ContextType::Call(kind)) ==> t == (ClState {
                call_type: Some(kind),
                ..s
            })
            &&& context_type_of(opcode@) is None || context_type_of(opcode@) == Some(
                ContextType::Create,
            ) ==> t == s
        }),
{
}

/// A call made by a precompiled contract announces a plain call, and does nothing else.
pub proof fn precompile_announces_call(s: ClState, event: EvmEvent)
    requires
        event is PrecompileSubcall,
    ensures
        s.admits(Event::Evm(event)),
        s.step(Event::Evm(event)) == (ClState { call_type: Some(CallType::Call), ..s }),
{
}

/// An opcode that is about to run, one that has run without a trap or an exit, a slot that was
/// read or written, and a refund change nothing.
pub proof fn other_events_change_nothing(s: ClState, event: Event)
    requires
        match event {
            Event::Runtime(RuntimeEvent::Step { .. }) => true,
            Event::Runtime(RuntimeEvent::StepResult { result, .. }) => result is Ok,
            Event::Runtime(RuntimeEvent::SLoad { .. }) => true,
            Event::Runtime(RuntimeEvent::SStore { .. }) => true,
            Event::Gasometer(GasometerEvent::RecordRefund { .. }) => true,
            _ => false,
        },
    ensures
        s.admits(event),
        s.step(event) == s,
{
}

/// A cost, fixed or computed, and a stipend tell the gas left in the innermost context: the first
/// time it is also the gas that the context started with. No other context changes, and outside of
/// any context nothing does. It makes no difference which of the three tells it.
pub proof fn gas_is_noted(
    s: ClState,
    cost: u64,
    stipend: u64,
    gas_cost: u64,
    memory_gas: u64,
    gas_refund: i64,
    snapshot: Snapshot,
)
    requires
        s.context_stack.len() > 0 ==> snapshot.used_gas + snapshot.memory_gas <= snapshot.gas_limit,
    ensures
        ({
            let fixed = Event::Gasometer(GasometerEvent::RecordCost { cost, snapshot });
            let computed = Event::Gasometer(
                GasometerEvent::RecordDynamicCost { gas_cost, memory_gas, gas_refund, snapshot },
            );
            let granted = Event::Gasometer(GasometerEvent::RecordStipend { stipend, snapshot });
            let t = s.step(fixed);
            let left = (snapshot.gas_limit - snapshot.used_gas - snapshot.memory_gas) as u64;
            &&& s.admits(fixed)
            &&& s.admits(computed)
            &&& s.admits(granted)
            &&& s.step(computed) == t
            &&& s.step(granted) == t
            &&& s.context_stack.len() == 0 ==> t == s
            &&& s.context_stack.len() > 0 ==> {
                let before = s.context_stack.last();
                let after = t.context_stack.last();
                &&& t.context_stack.len() == s.context_stack.len()
                &&& t.context_stack.drop_last() == s.context_stack.drop_last()
                &&& before.start_gas is None ==> after == (ContextView {
                    gas: left,
                    start_gas: Some(left),
                    ..before
                })
                &&& before.start_gas is Some ==> after == (ContextView { gas: left, ..before })
                &&& t == (ClState { context_stack: t.context_stack, ..s })
            }
        }),
{
    let t = s.step(Event::Gasometer(GasometerEvent::RecordCost { cost, snapshot }));
    if s.context_stack.len() > 0 {
        assert(t.context_stack.drop_last() =~= s.context_stack.drop_last());
    }
}

/// The cost of the transaction is kept, and is all that is known of the transaction if nothing
/// came before; no context changes.
pub proof fn cost_is_kept(s: ClState, cost: u64, snapshot: Snapshot)
    ensures
        ({
            let event = Event::Gasometer(GasometerEvent::RecordTransaction { cost, snapshot });
            &&& s.admits(event)
            &&& s.step(event) == (ClState {
                transaction_cost: cost,
                record_transaction_event_only: !s.transaction_known,
                ..s
            })
        }),
{
}

/// The announcement of a transaction, unless it is the first, ends the one before, and starts an
/// empty list for the next, of which nothing is known.
pub proof fn announcement_starts_list(s: ClState)
    ensures
        ({
            let t = s.step(Event::CallListNew());
            &&& s.call_list_first_transaction ==> s.admits(Event::CallListNew()) && t == (ClState {
                call_list_first_transaction: false,
                ..s
            })
            &&& !s.call_list_first_transaction ==> {
                &&& s.admits(Event::CallListNew()) == s.admits_finish()
                &&& t.entries == s.finish().entries.push(Map::empty())
                &&& t == (ClState {
                    entries: t.entries,
                    skip_next_context: false,
                    call_type: None,
                    record_transaction_event_only: false,
                    ..s.finish()
                })
            }
        }),
{
}

/// The end of a transaction whose contexts have all ended, and of which more than its cost is
/// known, lists the entry that waits, if there is one, and nothing else.
pub proof fn end_of_ended(s: ClState)
    requires
        s.context_stack.len() == 0,
        !s.record_transaction_event_only,
    ensures
        s.admits_finish(),
        s.step_result_entry matches Some(entry) ==> adds_one(
            s.entries,
            s.finish().entries,
            entry.0,
            entry.1,
        ),
        s.step_result_entry is None ==> s.finish().entries == s.entries,
        s.finish() == (ClState {
            entries: s.finish().entries,
            step_result_entry: None,
            transaction_known: false,
            ..s
        }),
{
}

/// The end of a transaction of which nothing but its cost is known lists, under the next key, a
/// call without accounts, value, gas and input that has failed with a message which says so.
pub proof fn end_of_unpaid(s: ClState)
    requires
        s.wf(),
        s.record_transaction_event_only,
        s.entries_next_index < u32::MAX,
    ensures
        s.admits_finish(),
        adds_one(
            s.entries,
            s.finish().entries,
            s.entries_next_index,
            CallView {
                from: (0, 0),
                trace_address: Seq::empty(),
                subtraces: 0,
                value: 0,
                gas: 0,
                gas_used: 0,
                inner: CallInnerView::Call {
                    call_type: CallType::Call,
                    to: (0, 0),
                    input: Seq::empty(),
                    res: CallResultView::Error(
                        encode_utf8(
                            "transaction could not pay its own data cost (impossible to gather more info)"@,
                        ),
                    ),
                },
            },
        ),
        s.finish() == (ClState {
            entries: s.finish().entries,
            entries_next_index: (s.entries_next_index + 1) as u32,
            ..s
        }),
{
}

/// The end of a transaction that was cut short lists its outermost context under its key, with all
/// that it was opened with and a message which says so in place of an outcome, after the entry
/// that waits, if there is one. The contexts inside it are forgotten, and their keys are free
/// again.
pub proof fn end_of_cut_short(s: ClState, start: u64, between: Seq<Map<u32, CallView>>)
    requires
        s.wf(),
        s.context_stack.len() > 0,
        s.context_stack[0].start_gas == Some(start) || s.context_stack[0].start_gas is None && start
            == 0,
        s.context_stack[0].gas <= start,
        s.context_stack[0].entries_index == 0 ==> start - s.context_stack[0].gas
            + s.transaction_cost <= u64::MAX,
        s.step_result_entry is None ==> between == s.entries,
        s.step_result_entry matches Some(entry) ==> adds_one(
            s.entries,
            between,
            entry.0,
            entry.1,
        ),
    ensures
        s.admits_finish(),
        ({
            let root = s.context_stack[0];
            let message = encode_utf8(
                "early exit (out of gas, stack overflow, direct call to precompile, ...)"@,
            );
            let listed = s.finish().entries.last();
            let entry = listed[root.entries_index];
            &&& adds_one(between, s.finish().entries, root.entries_index, entry)
            &&& entry.from == root.from
            &&& entry.trace_address == root.trace_address
            &&& entry.subtraces == root.subtraces
            &&& entry.value == root.value
            &&& entry.gas == root.gas
            &&& entry.gas_used == start - root.gas + if root.entries_index == 0 {
                s.transaction_cost as int
            } else {
                0
            }
            &&& root.context_type == ContextType::Create ==> entry.inner == (CallInnerView::Create {
                init: root.data,
                res: CreateResultView::Error(message),
            })
            &&& root.context_type matches ContextType::Call(call_type) ==> entry.inner == (
            CallInnerView::Call {
                call_type,
                to: root.to,
                input: root.data,
                res: CallResultView::Error(message),
            })
            &&& s.finish() == (ClState {
                entries: s.finish().entries,
                context_stack: Seq::empty(),
                step_result_entry: None,
                transaction_known: false,
                entries_next_index: (root.entries_index + 1) as u32,
                ..s
            })
        }),
{
    assert(between =~= s.add_waiting().entries);
}

/// What can be taken in: an event that gets a key needs one that is left, one that is counted
/// needs room in the count, one that tells gas needs enough of it, and one that ends a context
/// needs gas that did not grow.
pub proof fn what_is_taken_in(
    s: ClState,
    event: EvmEvent,
    reason: ExitReason,
    return_value: Vec<u8>,
)
    ensures
        ({
            let countable = s.context_stack.len() > 0 ==> {
                let c = s.context_stack.last();
                let start = match c.start_gas {
                    Some(start) => start,
                    None => 0,
                };
                &&& c.gas <= start
                &&& c.entries_index == 0 ==> start - c.gas + s.transaction_cost <= u64::MAX
            };
            let room = s.entries_next_index < u32::MAX && (s.context_stack.len() > 0
                ==> s.context_stack.last().subtraces < u32::MAX);
            &&& event is TransactCall || event is TransactCreate || event is TransactCreate2 ==> (
            s.admits(Event::Evm(event)) <==> s.entries_next_index < u32::MAX)
            &&& event is Call || event is Create ==> (s.admits(Event::Evm(event))
                <==> s.skip_next_context || room)
            &&& event is Suicide ==> (s.admits(Event::Evm(event)) <==> room)
            &&& event is Exit ==> (s.admits(Event::Evm(event)) <==> s.step_result_entry is Some
                || countable)
            &&& s.admits(
                Event::Runtime(
                    RuntimeEvent::StepResult { result: Err(Capture::Exit(reason)), return_value },
                ),
            ) <==> countable
        }),
{
}

/// The gas told in an open context must not be less than none, and the end of a transaction is as
/// the end of its outermost context, or needs a key for the entry that says that it could not pay.
pub proof fn what_is_taken_in_besides(s: ClState, event: GasometerEvent)
    ensures
        match event {
            GasometerEvent::RecordCost { snapshot, .. } => s.admits(Event::Gasometer(event))
                <==> s.context_stack.len() == 0 || snapshot.used_gas + snapshot.memory_gas
                <= snapshot.gas_limit,
            GasometerEvent::RecordDynamicCost { snapshot, .. } => s.admits(Event::Gasometer(event))
                <==> s.context_stack.len() == 0 || snapshot.used_gas + snapshot.memory_gas
                <= snapshot.gas_limit,
            GasometerEvent::RecordStipend { snapshot, .. } => s.admits(Event::Gasometer(event))
                <==> s.context_stack.len() == 0 || snapshot.used_gas + snapshot.memory_gas
                <= snapshot.gas_limit,
            _ => s.admits(Event::Gasometer(event)),
        },
        s.context_stack.len() > 0 ==> (s.admits_finish() <==> {
            let c = s.context_stack[0];
            let start = match c.start_gas {
                Some(start) => start,
                None => 0,
            };
            &&& c.gas <= start
            &&& c.entries_index == 0 ==> start - c.gas + s.transaction_cost <= u64::MAX
        }),
        s.context_stack.len() == 0 ==> (s.admits_finish() <==> !s.record_transaction_event_only
            || s.entries_next_index < u32::MAX),
{
}

/// A call announced by a trap, run with the gas that the gasometer first and last tells, and ended
/// is listed below the context that made it: from the account of that context to the account whose
/// code was called, with the kind of the opcode, the value that the code sees, the input, the gas
/// left, the difference of the gas told, and the outcome.
pub proof fn nested_call_is_listed(
    s: ClState,
    opcode: Vec<u8>,
    kind: CallType,
    code_address: H160,
    transfer: Option<Transfer>,
    input: Vec<u8>,
    target_gas: Option<u64>,
    is_static: bool,
    context: EvmContext,
    first_cost: u64,
    first_snapshot: Snapshot,
    last_cost: u64,
    last_snapshot: Snapshot,
    reason: ExitReason,
    return_value: Vec<u8>,
)
    requires
        s.wf(),
        s.step_result_entry is None,
        !s.skip_next_context,
        s.context_stack.len() > 0,
        s.context_stack.last().subtraces < u32::MAX,
        s.entries_next_index < u32::MAX,
        context_type_of(opcode@) == Some(ContextType::Call(kind)),
        first_snapshot.used_gas + first_snapshot.memory_gas <= first_snapshot.gas_limit,
        last_snapshot.used_gas + last_snapshot.memory_gas <= last_snapshot.gas_limit,
        last_snapshot.gas_limit - last_snapshot.used_gas - last_snapshot.memory_gas
            <= first_snapshot.gas_limit - first_snapshot.used_gas - first_snapshot.memory_gas,
    ensures
        ({
            let trapped = s.step(
                Event::Runtime(
                    RuntimeEvent::StepResult { result: Err(Capture::Trap(opcode)), return_value },
                ),
            );
            let opened = trapped.step(
                Event::Evm(
                    EvmEvent::Call {
                        code_address,
                        transfer,
                        input,
                        target_gas,
                        is_static,
                        context,
                    },
                ),
            );
            let ran = opened.step(
                Event::Gasometer(
                    GasometerEvent::RecordCost { cost: first_cost, snapshot: first_snapshot },
                ),
            ).step(
                Event::Gasometer(
                    GasometerEvent::RecordCost { cost: last_cost, snapshot: last_snapshot },
                ),
            );
            let t = ran.step(Event::Evm(EvmEvent::Exit { reason, return_value }));
            let caller = s.context_stack.last();
            let start = first_snapshot.gas_limit - first_snapshot.used_gas
                - first_snapshot.memory_gas;
            let left = last_snapshot.gas_limit - last_snapshot.used_gas - last_snapshot.memory_gas;
            &&& adds_one(
                s.entries,
                t.entries,
                s.entries_next_index,
                CallView {
                    from: caller.to,
                    trace_address: caller.trace_address.push(caller.subtraces),
                    subtraces: 0,
                    value: context.apparent_value@,
                    gas: left as nat,
                    gas_used: (start - left) as nat,
                    inner: CallInnerView::Call {
                        call_type: kind,
                        to: code_address,
                        input: input@,
                        res: call_result_view(reason, return_value@),
                    },
                },
            )
            &&& t.context_stack.len() == s.context_stack.len()
            &&& t.context_stack.last() == (ContextView {
                subtraces: (caller.subtraces + 1) as u32,
                ..caller
            })
        }),
{
    assert(s.context_stack[s.context_stack.len() - 1].entries_index < s.entries_next_index);
    let trapped = s.step(
        Event::Runtime(
            RuntimeEvent::StepResult { result: Err(Capture::Trap(opcode)), return_value },
        ),
    );
    trap_announces_kind(s, opcode, return_value);
    call_opens(trapped, code_address, transfer, input, target_gas, is_static, context);
    let opened = trapped.step(
        Event::Evm(
            EvmEvent::Call { code_address, transfer, input, target_gas, is_static, context },
        ),
    );
    gas_is_noted(opened, first_cost, 0, 0, 0, 0, first_snapshot);
    let started = opened.step(
        Event::Gasometer(GasometerEvent::RecordCost { cost: first_cost, snapshot: first_snapshot }),
    );
    gas_is_noted(started, last_cost, 0, 0, 0, 0, last_snapshot);
    let ran = started.step(
        Event::Gasometer(GasometerEvent::RecordCost { cost: last_cost, snapshot: last_snapshot }),
    );
    let start = (first_snapshot.gas_limit - first_snapshot.used_gas
        - first_snapshot.memory_gas) as u64;
    exit_lists_call(ran, reason, return_value, kind, start);
    let t = ran.step(Event::Evm(EvmEvent::Exit { reason, return_value }));
    assert(t.context_stack.last() == opened.context_stack[s.context_stack.len() - 1]) by {
        assert(t.context_stack =~= ran.context_stack.drop_last());
        assert(ran.context_stack.drop_last() =~= opened.context_stack.drop_last());
    }
}

/// A creation run and ended likewise is listed below the context that made it, from the account
/// that the event names, with its code, its value, and its outcome: if it succeeds, the created
/// account and the returned bytes as its code.
pub proof fn nested_creation_is_listed(
    s: ClState,
    caller: H160,
    address: H160,
    scheme: CreateScheme,
    value: U256,
    init_code: Vec<u8>,
    target_gas: Option<u64>,
    first_cost: u64,
    first_snapshot: Snapshot,
    last_cost: u64,
    last_snapshot: Snapshot,
    reason: ExitReason,
    return_value: Vec<u8>,
)
    requires
        s.wf(),
        s.step_result_entry is None,
        !s.skip_next_context,
        s.context_stack.len() > 0,
        s.context_stack.last().subtraces < u32::MAX,
        s.entries_next_index < u32::MAX,
        first_snapshot.used_gas + first_snapshot.memory_gas <= first_snapshot.gas_limit,
        last_snapshot.used_gas + last_snapshot.memory_gas <= last_snapshot.gas_limit,
        last_snapshot.gas_limit - last_snapshot.used_gas - last_snapshot.memory_gas
            <= first_snapshot.gas_limit - first_snapshot.used_gas - first_snapshot.memory_gas,
    ensures
        ({
            let opened = s.step(
                Event::Evm(
                    EvmEvent::Create { caller, address, scheme, value, init_code, target_gas },
                ),
            );
            let ran = opened.step(
                Event::Gasometer(
                    GasometerEvent::RecordCost { cost: first_cost, snapshot: first_snapshot },
                ),
            ).step(
                Event::Gasometer(
                    GasometerEvent::RecordCost { cost: last_cost, snapshot: last_snapshot },
                ),
            );
            let t = ran.step(Event::Evm(EvmEvent::Exit { reason, return_value }));
            let around = s.context_stack.last();
            let start = first_snapshot.gas_limit - first_snapshot.used_gas
                - first_snapshot.memory_gas;
            let left = last_snapshot.gas_limit - last_snapshot.used_gas - last_snapshot.memory_gas;
            &&& adds_one(
                s.entries,
                t.entries,
                s.entries_next_index,
                CallView {
                    from: caller,
                    trace_address: around.trace_address.push(around.subtraces),
                    subtraces: 0,
                    value: value@,
                    gas: left as nat,
                    gas_used: (start - left) as nat,
                    inner: CallInnerView::Create {
                        init: init_code@,
                        res: if reason is Succeed {
                            CreateResultView::Success { address, code: return_value@ }
                        } else {
                            create_result_view(reason, address, return_value@)
                        },
                    },
                },
            )
            &&& t.context_stack.len() == s.context_stack.len()
            &&& t.context_stack.last() == (ContextView {
                subtraces: (around.subtraces + 1) as u32,
                ..around
            })
        }),
{
    assert(s.context_stack[s.context_stack.len() - 1].entries_index < s.entries_next_index);
    create_opens(s, caller, address, scheme, value, init_code, target_gas);
    let opened = s.step(
        Event::Evm(EvmEvent::Create { caller, address, scheme, value, init_code, target_gas }),
    );
    gas_is_noted(opened, first_cost, 0, 0, 0, 0, first_snapshot);
    let started = opened.step(
        Event::Gasometer(GasometerEvent::RecordCost { cost: first_cost, snapshot: first_snapshot }),
    );
    gas_is_noted(started, last_cost, 0, 0, 0, 0, last_snapshot);
    let ran = started.step(
        Event::Gasometer(GasometerEvent::RecordCost { cost: last_cost, snapshot: last_snapshot }),
    );
    let start = (first_snapshot.gas_limit - first_snapshot.used_gas
        - first_snapshot.memory_gas) as u64;
    exit_lists_creation(ran, reason, return_value, start);
    let t = ran.step(Event::Evm(EvmEvent::Exit { reason, return_value }));
    assert(t.context_stack.last() == opened.context_stack[s.context_stack.len() - 1]) by {
        assert(t.context_stack =~= ran.context_stack.drop_last());
        assert(ran.context_stack.drop_last() =~= opened.context_stack.drop_last());
    }
}

/// A call made by a call comes from the account whose code the outer one called, whatever account
/// the machine runs that code for, and is below it.
pub proof fn call_within_call(s: ClState, outer: EvmEvent, inner: EvmEvent)
    requires
        outer matches EvmEvent::Call { .. },
        inner matches EvmEvent::Call { .. },
        !s.skip_next_context,
        s.entries_next_index < u32::MAX - 1,
        s.context_stack.len() > 0 ==> s.context_stack.last().subtraces < u32::MAX,
    ensures
        ({
            let around = s.step(Event::Evm(outer)).context_stack.last();
            let t = s.step(Event::Evm(outer)).step(Event::Evm(inner));
            &&& outer matches EvmEvent::Call { code_address, .. } && t.context_stack.last().from
                == code_address
            &&& inner matches EvmEvent::Call { code_address, .. } && t.context_stack.last().to
                == code_address
            &&& t.context_stack.last().trace_address == around.trace_address.push(0)
            &&& t.context_stack[t.context_stack.len() - 2].subtraces == 1
        }),
{
}

/// A transaction that is a call, run with the gas that the gasometer first and last tells, and
/// ended is listed as a root from its caller to the account called, with its value, its data, and
/// its outcome; if its key is the first of all, its own cost counts too.
pub proof fn transaction_call_is_listed(
    s: ClState,
    caller: H160,
    address: H160,
    value: U256,
    data: Vec<u8>,
    gas_limit: u64,
    follows: EvmEvent,
    cost: u64,
    snapshot: Snapshot,
    first_cost: u64,
    first_snapshot: Snapshot,
    last_cost: u64,
    last_snapshot: Snapshot,
    reason: ExitReason,
    return_value: Vec<u8>,
)
    requires
        s.wf(),
        s.step_result_entry is None,
        s.entries_next_index < u32::MAX,
        follows is Call || follows is Create,
        first_snapshot.used_gas + first_snapshot.memory_gas <= first_snapshot.gas_limit,
        last_snapshot.used_gas + last_snapshot.memory_gas <= last_snapshot.gas_limit,
        last_snapshot.gas_limit - last_snapshot.used_gas - last_snapshot.memory_gas
            <= first_snapshot.gas_limit - first_snapshot.used_gas - first_snapshot.memory_gas,
        first_snapshot.gas_limit + cost <= u64::MAX,
    ensures
        ({
            let opened = s.step(
                Event::Evm(EvmEvent::TransactCall { caller, address, value, data, gas_limit }),
            );
            let paid = opened.step(
                Event::Gasometer(GasometerEvent::RecordTransaction { cost, snapshot }),
            );
            let called = paid.step(Event::Evm(follows));
            let ran = called.step(
                Event::Gasometer(
                    GasometerEvent::RecordCost { cost: first_cost, snapshot: first_snapshot },
                ),
            ).step(
                Event::Gasometer(
                    GasometerEvent::RecordCost { cost: last_cost, snapshot: last_snapshot },
                ),
            );
            let t = ran.step(Event::Evm(EvmEvent::Exit { reason, return_value }));
            let start = first_snapshot.gas_limit - first_snapshot.used_gas
                - first_snapshot.memory_gas;
            let left = last_snapshot.gas_limit - last_snapshot.used_gas - last_snapshot.memory_gas;
            &&& adds_one(
                s.entries,
                t.entries,
                s.entries_next_index,
                CallView {
                    from: caller,
                    trace_address: Seq::empty(),
                    subtraces: 0,
                    value: value@,
                    gas: left as nat,
                    gas_used: (start - left + if s.entries_next_index == 0 {
                        cost as int
                    } else {
                        0
                    }) as nat,
                    inner: CallInnerView::Call {
                        call_type: CallType::Call,
                        to: address,
                        input: data@,
                        res: call_result_view(reason, return_value@),
                    },
                },
            )
            &&& t.context_stack == s.context_stack
        }),
{
    transact_call_opens(s, caller, address, value, data, gas_limit);
    let opened = s.step(
        Event::Evm(EvmEvent::TransactCall { caller, address, value, data, gas_limit }),
    );
    cost_is_kept(opened, cost, snapshot);
    let paid = opened.step(Event::Gasometer(GasometerEvent::RecordTransaction { cost, snapshot }));
    skipped_once(paid, follows);
    let called = paid.step(Event::Evm(follows));
    gas_is_noted(called, first_cost, 0, 0, 0, 0, first_snapshot);
    let started = called.step(
        Event::Gasometer(GasometerEvent::RecordCost { cost: first_cost, snapshot: first_snapshot }),
    );
    gas_is_noted(started, last_cost, 0, 0, 0, 0, last_snapshot);
    let ran = started.step(
        Event::Gasometer(GasometerEvent::RecordCost { cost: last_cost, snapshot: last_snapshot }),
    );
    let start = (first_snapshot.gas_limit - first_snapshot.used_gas
        - first_snapshot.memory_gas) as u64;
    exit_lists_call(ran, reason, return_value, CallType::Call, start);
    let t = ran.step(Event::Evm(EvmEvent::Exit { reason, return_value }));
    assert(t.context_stack =~= s.context_stack);
}

} // verus!
