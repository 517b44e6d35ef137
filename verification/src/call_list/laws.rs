//! Laws of the call list listener.

use vstd::prelude::*;

use super::model::{continues, unpaid_entry, ClState, ContextView, TracingVersion};
use crate::calls::{CallType, CallView, ContextType};
use crate::events::{Event, EvmEvent, GasometerEvent, RuntimeEvent};
use crate::types::{Capture, ExitReason, H160};

verus! {

/// A new listener is well-formed.
pub proof fn initial_wf()
    ensures
        ClState::initial().wf(),
{
}

/// Counting an entry below the innermost context keeps the state well-formed, and the path
/// that the entry gets continues that of the innermost context.
pub(crate) proof fn lemma_count_child_wf(s: ClState)
    requires
        s.wf(),
        s.has_room(),
    ensures
        s.count_child().wf(),
        s.count_child().context_stack.len() == s.context_stack.len(),
        s.context_stack.len() > 0 ==> {
            let last = s.count_child().context_stack.last();
            &&& last.subtraces > 0
            &&& s.child_path() == last.trace_address.push((last.subtraces - 1) as u32)
        },
{
    let t = s.count_child();
    if s.context_stack.len() > 0 {
        assert(t.context_stack.len() == s.context_stack.len());
        assert forall|i: int| 0 <= i < t.context_stack.len() implies {
            let old = #[trigger] s.context_stack[i];
            let new = t.context_stack[i];
            &&& new.entries_index == old.entries_index
            &&& new.start_gas == old.start_gas
            &&& new.gas == old.gas
            &&& new.trace_address == old.trace_address
            &&& i < t.context_stack.len() - 1 ==> new == old
        } by {}
        assert forall|i: int, j: int|
            #![trigger t.context_stack[i], t.context_stack[j]]
            0 <= i && j == i + 1 && j < t.context_stack.len() implies continues(
            t.context_stack[i],
            t.context_stack[j],
        ) by {
            assert(continues(s.context_stack[i], s.context_stack[j]));
        }
    }
}

/// Opening a context keeps the state well-formed.
proof fn lemma_push_context_wf(
    s: ClState,
    context_type: ContextType,
    from: H160,
    trace_address: Seq<u32>,
    value: nat,
    data: Seq<u8>,
    to: H160,
)
    requires
        s.wf(),
        s.transaction_known,
        s.entries_next_index < u32::MAX,
        trace_address.len() == 0 || s.context_stack.len() > 0 && s.context_stack.last().subtraces
            > 0 && trace_address == s.context_stack.last().trace_address.push(
            (s.context_stack.last().subtraces - 1) as u32,
        ),
    ensures
        s.push_context(context_type, from, trace_address, value, data, to).wf(),
{
    let t = s.push_context(context_type, from, trace_address, value, data, to);
    let n = s.context_stack.len() as int;
    assert forall|i: int| 0 <= i < n implies #[trigger] t.context_stack[i] == s.context_stack[i] by {}
    assert forall|i: int, j: int|
        #![trigger t.context_stack[i], t.context_stack[j]]
        0 <= i && j == i + 1 && j < t.context_stack.len() implies continues(
        t.context_stack[i],
        t.context_stack[j],
    ) by {
        if j < n {
            assert(continues(s.context_stack[i], s.context_stack[j]));
        }
    }
}

/// Closing the innermost context keeps the state well-formed.
proof fn lemma_pop_context_wf(s: ClState, reason: ExitReason, return_value: Seq<u8>)
    requires
        s.wf(),
    ensures
        s.pop_context(reason, return_value).0.wf(),
{
    let t = s.pop_context(reason, return_value).0;
    assert forall|i: int| 0 <= i < t.context_stack.len() implies #[trigger] t.context_stack[i]
        == s.context_stack[i] by {}
}

/// Every event of the machinery around the contexts keeps the state well-formed.
pub proof fn evm_step_wf(s: ClState, event: EvmEvent)
    requires
        s.wf(),
        s.admits_evm(event),
    ensures
        s.evm_step(event).wf(),
{
    let known = s.known();
    match event {
        EvmEvent::TransactCall { caller, address, value, data, .. } => {
            lemma_push_context_wf(
                known,
                ContextType::Call(CallType::Call),
                caller,
                Seq::empty(),
                value@,
                data@,
                address,
            );
        },
        EvmEvent::TransactCreate { caller, value, init_code, address, .. } => {
            lemma_push_context_wf(
                known,
                ContextType::Create,
                caller,
                Seq::empty(),
                value@,
                init_code@,
                address,
            );
        },
        EvmEvent::TransactCreate2 { caller, value, init_code, address, .. } => {
            lemma_push_context_wf(
                known,
                ContextType::Create,
                caller,
                Seq::empty(),
                value@,
                init_code@,
                address,
            );
        },
        EvmEvent::Call { code_address, input, is_static, context, .. } => {
            if !s.skip_next_context {
                lemma_count_child_wf(known);
                lemma_push_context_wf(
                    known.count_child(),
                    ContextType::Call(s.next_call_type(is_static)),
                    s.next_caller(context.caller),
                    s.child_path(),
                    context.apparent_value@,
                    input@,
                    code_address,
                );
            }
        },
        EvmEvent::Create { caller, address, value, init_code, .. } => {
            if !s.skip_next_context {
                lemma_count_child_wf(known);
                lemma_push_context_wf(
                    known.count_child(),
                    ContextType::Create,
                    caller,
                    s.child_path(),
                    value@,
                    init_code@,
                    address,
                );
            }
        },
        EvmEvent::Suicide { .. } => {
            lemma_count_child_wf(s);
        },
        EvmEvent::Exit { reason, return_value } => {
            lemma_pop_context_wf(known, reason, return_value@);
        },
        EvmEvent::PrecompileSubcall { .. } => {},
    }
}

/// Every event of the machine that runs the code keeps the state well-formed.
pub proof fn runtime_step_wf(s: ClState, event: RuntimeEvent)
    requires
        s.wf(),
        s.admits_runtime(event),
    ensures
        s.runtime_step(event).wf(),
{
    match event {
        RuntimeEvent::StepResult {
            result: Err(Capture::Exit(reason)),
            return_value,
        } => {
            lemma_pop_context_wf(s, reason, return_value@);
        },
        _ => {},
    }
}

/// Every event of the gasometer keeps the state well-formed.
pub proof fn gasometer_step_wf(s: ClState, event: GasometerEvent)
    requires
        s.wf(),
        s.admits_gasometer(event),
    ensures
        s.gasometer_step(event).wf(),
{
    let t = s.gasometer_step(event);
    assert forall|i: int| 0 <= i < t.context_stack.len() implies {
        let old = #[trigger] s.context_stack[i];
        let new = t.context_stack[i];
        &&& new.entries_index == old.entries_index
        &&& new.subtraces == old.subtraces
        &&& new.trace_address == old.trace_address
        &&& i < t.context_stack.len() - 1 ==> new == old
    } by {}
    assert forall|i: int, j: int|
        #![trigger t.context_stack[i], t.context_stack[j]]
        0 <= i && j == i + 1 && j < t.context_stack.len() implies continues(
        t.context_stack[i],
        t.context_stack[j],
    ) by {
        assert(continues(s.context_stack[i], s.context_stack[j]));
    }
}

/// Finishing the transaction keeps the state well-formed, and leaves no context open, no entry
/// that waits and nothing known of a transaction after it.
pub proof fn finish_wf(s: ClState)
    requires
        s.wf(),
        s.admits_finish(),
    ensures
        s.finish().wf(),
        s.finish().context_stack.len() == 0,
        s.finish().step_result_entry is None,
        !s.finish().transaction_known,
{
}

/// Every event keeps the state well-formed.
pub proof fn step_wf(s: ClState, event: Event)
    requires
        s.wf(),
        s.admits(event),
    ensures
        s.step(event).wf(),
{
    match event {
        Event::Gasometer(event) => gasometer_step_wf(s, event),
        Event::Runtime(event) => runtime_step_wf(s, event),
        Event::Evm(event) => evm_step_wf(s, event),
        Event::CallListNew() => {
            if !s.call_list_first_transaction {
                finish_wf(s);
            }
        },
    }
}

/// The list to which entries are being added.
pub open spec fn current_list(s: ClState) -> Map<u32, CallView> {
    if s.entries.len() > 0 {
        s.entries.last()
    } else {
        Map::empty()
    }
}

/// Whether `key` belongs to a context that is still open.
pub open spec fn is_open(s: ClState, key: u32) -> bool {
    exists|i: int| 0 <= i < s.context_stack.len() && #[trigger] s.context_stack[i].entries_index == key
}

/// Whether `key` belongs to the entry that waits for its context's end to be announced.
pub open spec fn is_waiting(s: ClState, key: u32) -> bool {
    s.step_result_entry matches Some(entry) && entry.0 == key
}

/// Whether the keys of the current list, of the waiting entry and of the open contexts are all
/// different, and below the next key.
pub open spec fn fresh(s: ClState) -> bool {
    &&& current_list(s).dom().finite()
    &&& forall|key: u32| #[trigger]
        current_list(s).contains_key(key) ==> key < s.entries_next_index && !is_open(s, key)
            && !is_waiting(s, key)
    &&& s.step_result_entry matches Some(entry) ==> entry.0 < s.entries_next_index && !is_open(
        s,
        entry.0,
    )
}

/// Whether the event is one that gets an entry of its own: a transaction, a call or a creation
/// that opens a context, or the destruction of an account.
pub open spec fn gets_entry(s: ClState, event: Event) -> bool {
    match event {
        Event::Evm(EvmEvent::TransactCall { .. }) => true,
        Event::Evm(EvmEvent::TransactCreate { .. }) => true,
        Event::Evm(EvmEvent::TransactCreate2 { .. }) => true,
        Event::Evm(EvmEvent::Call { .. }) => !s.skip_next_context,
        Event::Evm(EvmEvent::Create { .. }) => !s.skip_next_context,
        Event::Evm(EvmEvent::Suicide { .. }) => true,
        _ => false,
    }
}

/// Number of entries of the current list, counting those that are still to be added: one for
/// the waiting entry, and one for each open context.
pub open spec fn entries_due(s: ClState) -> nat {
    current_list(s).len() + s.context_stack.len() + if s.step_result_entry is Some {
        1nat
    } else {
        0
    }
}

/// Whether the event is a step that ends a context.
pub open spec fn is_step_exit(event: Event) -> bool {
    event matches Event::Runtime(RuntimeEvent::StepResult { result: Err(Capture::Exit(_)), .. })
}

/// A new listener has nothing but fresh keys.
pub proof fn initial_fresh()
    ensures
        fresh(ClState::initial()),
        entries_due(ClState::initial()) == 0,
{
}

pub(crate) proof fn lemma_insert_entry(s: ClState, key: u32, entry: CallView)
    ensures
        current_list(s.insert_entry(key, entry)) == current_list(s).insert(key, entry),
{
    if s.entries.len() == 0 {
        assert(s.insert_entry(key, entry).entries.last() == Map::<u32, CallView>::empty().insert(
            key,
            entry,
        ));
    }
}

proof fn lemma_open_after_push(s: ClState, t: ClState)
    requires
        t.context_stack.len() == s.context_stack.len() + 1,
        forall|i: int|
            0 <= i < s.context_stack.len() ==> (#[trigger] t.context_stack[i]).entries_index
                == s.context_stack[i].entries_index,
        t.context_stack.last().entries_index == s.entries_next_index,
    ensures
        forall|key: u32| #[trigger]
            is_open(t, key) <==> is_open(s, key) || key == s.entries_next_index,
{
    assert forall|key: u32| #[trigger] is_open(t, key) <==> is_open(s, key) || key
        == s.entries_next_index by {
        if is_open(s, key) {
            let i = choose|i: int|
                0 <= i < s.context_stack.len() && #[trigger] s.context_stack[i].entries_index
                    == key;
            assert(t.context_stack[i].entries_index == key);
        }
        if key == s.entries_next_index {
            assert(t.context_stack[t.context_stack.len() - 1].entries_index == key);
        }
        if is_open(t, key) && key != s.entries_next_index {
            let i = choose|i: int|
                0 <= i < t.context_stack.len() && #[trigger] t.context_stack[i].entries_index
                    == key;
            assert(s.context_stack[i].entries_index == key);
        }
    }
}

proof fn lemma_open_same(s: ClState, t: ClState)
    requires
        t.context_stack.len() == s.context_stack.len(),
        forall|i: int|
            0 <= i < s.context_stack.len() ==> (#[trigger] t.context_stack[i]).entries_index
                == s.context_stack[i].entries_index,
    ensures
        forall|key: u32| #[trigger] is_open(t, key) <==> is_open(s, key),
{
    assert forall|key: u32| #[trigger] is_open(t, key) <==> is_open(s, key) by {
        if is_open(s, key) {
            let i = choose|i: int|
                0 <= i < s.context_stack.len() && #[trigger] s.context_stack[i].entries_index
                    == key;
            assert(t.context_stack[i].entries_index == key);
        }
        if is_open(t, key) {
            let i = choose|i: int|
                0 <= i < t.context_stack.len() && #[trigger] t.context_stack[i].entries_index
                    == key;
            assert(s.context_stack[i].entries_index == key);
        }
    }
}

proof fn lemma_open_after_pop(s: ClState, t: ClState)
    requires
        s.wf(),
        s.context_stack.len() > 0,
        t.context_stack == s.context_stack.drop_last(),
    ensures
        forall|key: u32| #[trigger]
            is_open(t, key) <==> is_open(s, key) && key != s.context_stack.last().entries_index,
        is_open(s, s.context_stack.last().entries_index),
{
    let n = s.context_stack.len() - 1;
    assert(s.context_stack[n].entries_index == s.context_stack.last().entries_index);
    assert forall|key: u32| #[trigger] is_open(t, key) <==> is_open(s, key) && key
        != s.context_stack.last().entries_index by {
        if is_open(s, key) && key != s.context_stack.last().entries_index {
            let i = choose|i: int|
                0 <= i < s.context_stack.len() && #[trigger] s.context_stack[i].entries_index
                    == key;
            assert(t.context_stack[i].entries_index == key);
        }
        if is_open(t, key) {
            let i = choose|i: int|
                0 <= i < t.context_stack.len() && #[trigger] t.context_stack[i].entries_index
                    == key;
            assert(s.context_stack[i].entries_index == key);
            assert(s.context_stack[i].entries_index < s.context_stack[n].entries_index);
        }
    }
}

pub(crate) proof fn lemma_fresh_same(s: ClState, t: ClState)
    requires
        fresh(s),
        t.entries == s.entries,
        t.step_result_entry == s.step_result_entry,
        t.entries_next_index == s.entries_next_index,
        t.context_stack.len() == s.context_stack.len(),
        forall|i: int|
            0 <= i < s.context_stack.len() ==> (#[trigger] t.context_stack[i]).entries_index
                == s.context_stack[i].entries_index,
    ensures
        fresh(t),
        entries_due(t) == entries_due(s),
{
    lemma_open_same(s, t);
    assert(current_list(t) == current_list(s));
}

proof fn lemma_fresh_push(s: ClState, t: ClState)
    requires
        s.wf(),
        fresh(s),
        t.entries == s.entries,
        t.step_result_entry == s.step_result_entry,
        t.entries_next_index == s.entries_next_index + 1,
        t.context_stack.len() == s.context_stack.len() + 1,
        forall|i: int|
            0 <= i < s.context_stack.len() ==> (#[trigger] t.context_stack[i]).entries_index
                == s.context_stack[i].entries_index,
        t.context_stack.last().entries_index == s.entries_next_index,
    ensures
        fresh(t),
        entries_due(t) == entries_due(s) + 1,
{
    lemma_open_after_push(s, t);
    assert(current_list(t) == current_list(s));
}

proof fn lemma_fresh_insert(s: ClState, key: u32, entry: CallView)
    requires
        fresh(s),
        key < s.entries_next_index,
        !is_open(s, key),
        !is_waiting(s, key),
        !current_list(s).contains_key(key),
    ensures
        fresh(s.insert_entry(key, entry)),
        entries_due(s.insert_entry(key, entry)) == entries_due(s) + 1,
{
    let t = s.insert_entry(key, entry);
    lemma_insert_entry(s, key, entry);
    lemma_open_same(s, t);
}

proof fn lemma_fresh_pop(s: ClState)
    requires
        s.wf(),
        fresh(s),
        s.context_stack.len() > 0,
    ensures
        ({
            let popped = ClState { context_stack: s.context_stack.drop_last(), ..s };
            let key = s.context_stack.last().entries_index;
            &&& fresh(popped)
            &&& entries_due(popped) + 1 == entries_due(s)
            &&& key < s.entries_next_index
            &&& !is_open(popped, key)
            &&& !is_waiting(popped, key)
            &&& !current_list(popped).contains_key(key)
        }),
{
    let popped = ClState { context_stack: s.context_stack.drop_last(), ..s };
    lemma_open_after_pop(s, popped);
    assert(current_list(popped) == current_list(s));
    assert(s.context_stack[s.context_stack.len() - 1].entries_index < s.entries_next_index);
}

proof fn lemma_fresh_close(s: ClState, reason: ExitReason, return_value: Seq<u8>)
    requires
        s.wf(),
        fresh(s),
    ensures
        ({
            let (popped, entry) = s.pop_context(reason, return_value);
            &&& fresh(popped.insert_if_some(entry))
            &&& entries_due(popped.insert_if_some(entry)) == entries_due(s)
            &&& popped.insert_if_some(entry).entries_next_index == s.entries_next_index
            &&& s.step_result_entry is None ==> {
                let waits = ClState { step_result_entry: entry, ..popped };
                &&& fresh(waits)
                &&& entries_due(waits) == entries_due(s)
            }
        }),
{
    if s.context_stack.len() > 0 {
        let (popped, entry) = s.pop_context(reason, return_value);
        lemma_fresh_pop(s);
        lemma_fresh_insert(popped, entry->Some_0.0, entry->Some_0.1);
        let waits = ClState { step_result_entry: entry, ..popped };
        lemma_open_same(popped, waits);
        assert(current_list(waits) == current_list(popped));
    }
}

proof fn lemma_fresh_exit(s: ClState, reason: ExitReason, return_value: Seq<u8>)
    requires
        s.wf(),
        fresh(s),
    ensures
        fresh(s.exit(reason, return_value)),
        entries_due(s.exit(reason, return_value)) == entries_due(s),
        s.exit(reason, return_value).entries_next_index == s.entries_next_index,
{
    let known = s.known();
    lemma_fresh_same(s, known);
    match s.step_result_entry {
        Some((key, entry)) => {
            let taken = ClState { step_result_entry: None, ..known };
            lemma_open_same(s, taken);
            assert(current_list(taken) == current_list(s));
            if current_list(s).contains_key(key) {
                assert(is_waiting(s, key));
            }
            lemma_fresh_insert(taken, key, entry);
        },
        None => lemma_fresh_close(known, reason, return_value),
    }
}

proof fn lemma_fresh_destroy(s: ClState, address: H160, target: H160, balance: nat)
    requires
        s.wf(),
        fresh(s),
        s.has_room(),
    ensures
        fresh(s.destroy(address, target, balance)),
        entries_due(s.destroy(address, target, balance)) == entries_due(s) + 1,
{
    let t = s.destroy(address, target, balance);
    let key = s.entries_next_index;
    let counted = s.count_child();
    let entry = t.entries.last()[key];
    lemma_open_same(s, t);
    assert(current_list(counted) == current_list(s));
    lemma_insert_entry(counted, key, entry);
    assert(t.entries =~= counted.insert_entry(key, entry).entries);
    assert(current_list(t) == current_list(s).insert(key, entry));
    assert(!current_list(s).contains_key(key));
    assert(!is_open(s, key));
}

/// Keys stay fresh, and no entry is lost or made up: an event that gets an entry of its own
/// makes one more entry due and uses up one key; any other event moves entries from the open
/// contexts to the waiting one and on to the list, but changes neither their number nor the next
/// key.
///
/// This leaves out the event that ends a transaction, and a step that ends a context while the
/// entry of another still waits: such an entry is replaced.
pub proof fn entries_conserved(s: ClState, event: Event)
    requires
        s.wf(),
        s.admits(event),
        fresh(s),
        !(event is CallListNew),
        is_step_exit(event) && s.version == TracingVersion::EarlyTransact
            && s.context_stack.len() > 0 ==> s.step_result_entry is None,
    ensures
        fresh(s.step(event)),
        entries_due(s.step(event)) == entries_due(s) + if gets_entry(s, event) {
            1nat
        } else {
            0
        },
        s.step(event).entries_next_index == s.entries_next_index + if gets_entry(s, event) {
            1int
        } else {
            0
        },
{
    let t = s.step(event);
    match event {
        Event::Gasometer(_) => lemma_fresh_same(s, t),
        Event::Runtime(RuntimeEvent::StepResult {
            result: Err(Capture::Exit(reason)),
            return_value,
        }) => lemma_fresh_close(s, reason, return_value@),
        Event::Runtime(_) => lemma_fresh_same(s, t),
        Event::Evm(EvmEvent::Exit { reason, return_value }) => lemma_fresh_exit(
            s,
            reason,
            return_value@,
        ),
        Event::Evm(EvmEvent::Suicide { address, target, balance }) => lemma_fresh_destroy(
            s,
            address,
            target,
            balance@,
        ),
        Event::Evm(_) => {
            if gets_entry(s, event) {
                lemma_fresh_push(s, t);
            } else {
                lemma_fresh_same(s, t);
            }
        },
        Event::CallListNew() => {},
    }
}

/// The state after a sequence of events.
pub open spec fn run(s: ClState, events: Seq<Event>) -> ClState
    decreases events.len(),
{
    if events.len() == 0 {
        s
    } else {
        run(s.step(events[0]), events.drop_first())
    }
}

/// Whether a sequence of events belongs to one transaction and can be taken in: none of them
/// ends the transaction, and no step ends a context while the entry of another waits.
pub open spec fn one_transaction(s: ClState, events: Seq<Event>) -> bool
    decreases events.len(),
{
    events.len() > 0 ==> {
        &&& s.admits(events[0])
        &&& !(events[0] is CallListNew)
        &&& is_step_exit(events[0]) && s.version == TracingVersion::EarlyTransact
            && s.context_stack.len() > 0 ==> s.step_result_entry is None
        &&& one_transaction(s.step(events[0]), events.drop_first())
    }
}

/// Number of events that get an entry of their own.
pub open spec fn entries_requested(s: ClState, events: Seq<Event>) -> nat
    decreases events.len(),
{
    if events.len() == 0 {
        0
    } else {
        entries_requested(s.step(events[0]), events.drop_first()) + if gets_entry(s, events[0]) {
            1nat
        } else {
            0
        }
    }
}

/// After any events of one transaction, the entries due have grown by one for each context
/// opened and each account destroyed.
pub proof fn run_entries_due(s: ClState, events: Seq<Event>)
    requires
        s.wf(),
        fresh(s),
        one_transaction(s, events),
    ensures
        run(s, events).wf(),
        fresh(run(s, events)),
        entries_due(run(s, events)) == entries_due(s) + entries_requested(s, events),
    decreases events.len(),
{
    if events.len() > 0 {
        step_wf(s, events[0]);
        entries_conserved(s, events[0]);
        run_entries_due(s.step(events[0]), events.drop_first());
    }
}

/// The event that stands before each transaction but the first ends the one before, and starts
/// an empty list after those that there are; no entry is due in it, and nothing is known of the
/// transaction: the kind of its root call is what the call itself says.
pub proof fn next_transaction(s: ClState)
    requires
        s.wf(),
        s.admits(Event::CallListNew()),
        !s.call_list_first_transaction,
    ensures
        ({
            let t = s.step(Event::CallListNew());
            &&& t.entries.drop_last() == s.finish().entries
            &&& t.entries.last() == Map::<u32, CallView>::empty()
            &&& t.context_stack.len() == 0
            &&& !t.skip_next_context
            &&& fresh(t)
            &&& entries_due(t) == 0
            &&& !t.transaction_known
            &&& !t.record_transaction_event_only
            &&& t.call_type is None
            &&& t.next_call_type(true) == CallType::StaticCall
            &&& t.next_call_type(false) == CallType::Call
        }),
{
    let t = s.step(Event::CallListNew());
    assert(t.entries.drop_last() =~= s.finish().entries);
    assert(current_list(t) == Map::<u32, CallView>::empty());
}

/// The first such event ends nothing and starts no list.
pub proof fn first_announcement(s: ClState)
    requires
        s.call_list_first_transaction,
    ensures
        s.admits(Event::CallListNew()),
        s.step(Event::CallListNew()) == (ClState { call_list_first_transaction: false, ..s }),
{
}

/// Whether the event announces a transaction.
pub open spec fn is_transact(event: EvmEvent) -> bool {
    event is TransactCall || event is TransactCreate || event is TransactCreate2
}

/// Whether the event is a call or a creation.
pub open spec fn is_call_or_create(event: EvmEvent) -> bool {
    event is Call || event is Create
}

/// The call or creation that follows the announcement of its transaction opens no context of its
/// own.
pub proof fn transaction_opens_one_context(s: ClState, transact: EvmEvent, follows: EvmEvent)
    requires
        is_transact(transact),
        is_call_or_create(follows),
        s.admits_evm(transact),
    ensures
        s.evm_step(transact).context_stack.len() == s.context_stack.len() + 1,
        s.evm_step(transact).context_stack.drop_last() == s.context_stack,
        s.evm_step(transact).context_stack.last().trace_address.len() == 0,
        s.evm_step(transact).admits_evm(follows),
        s.evm_step(transact).evm_step(follows) == (ClState {
            skip_next_context: false,
            ..s.evm_step(transact)
        }),
{
    assert(s.evm_step(transact).context_stack.drop_last() =~= s.context_stack);
}

/// Without such an announcement a call or creation opens a context of its own, whose path is
/// that of the innermost context and the number of older entries below it.
pub proof fn call_opens_child(s: ClState, event: EvmEvent)
    requires
        is_call_or_create(event),
        !s.skip_next_context,
        s.admits_evm(event),
    ensures
        ({
            let t = s.evm_step(event);
            &&& t.context_stack.drop_last() == s.count_child().context_stack
            &&& t.context_stack.last().trace_address == s.child_path()
            &&& t.context_stack.last().entries_index == s.entries_next_index
            &&& t.context_stack.last().subtraces == 0
        }),
{
    assert(s.evm_step(event).context_stack.drop_last() =~= s.count_child().context_stack);
}

/// The exit of a context undoes its opening: all that a call or creation leaves behind that
/// exits at once is one more entry, under the key and with the path that were next, and one more
/// counted below the context around it.
pub proof fn exit_undoes_call(s: ClState, event: EvmEvent, exit: EvmEvent)
    requires
        is_call_or_create(event),
        exit is Exit,
        !s.skip_next_context,
        s.step_result_entry is None,
        s.admits_evm(event),
    ensures
        s.evm_step(event).admits_evm(exit),
        ({
            let t = s.evm_step(event).evm_step(exit);
            let key = s.entries_next_index;
            &&& t.context_stack == s.count_child().context_stack
            &&& t.entries_next_index == key + 1
            &&& current_list(t).contains_key(key)
            &&& current_list(t).remove(key) == current_list(s).remove(key)
            &&& current_list(t)[key].trace_address == s.child_path()
            &&& current_list(t)[key].subtraces == 0
            &&& t.step_result_entry is None
        }),
{
    let opened = s.evm_step(event);
    let t = opened.evm_step(exit);
    let key = s.entries_next_index;
    assert(opened.context_stack.drop_last() =~= s.count_child().context_stack);
    match exit {
        EvmEvent::Exit { reason, return_value } => {
            let known = opened.known();
            let (popped, entry) = known.pop_context(reason, return_value@);
            lemma_insert_entry(popped, key, entry->Some_0.1);
            assert(current_list(popped) == current_list(s));
            assert(current_list(t) == current_list(s).insert(key, entry->Some_0.1));
            assert(current_list(t).remove(key) =~= current_list(s).remove(key));
        },
        _ => {},
    }
}

/// Where transactions are announced, a step that ends a context and the exit that follows it
/// close the context once, with the reason and the return value of the step: the same as the
/// exit alone with these.
pub proof fn step_exit_waits_for_exit(
    s: ClState,
    reason: ExitReason,
    return_value: Vec<u8>,
    later_reason: ExitReason,
    later_value: Seq<u8>,
)
    requires
        s.version == TracingVersion::EarlyTransact,
        s.step_result_entry is None,
        s.context_stack.len() > 0,
    ensures
        s.runtime_step(
            RuntimeEvent::StepResult { result: Err(Capture::Exit(reason)), return_value },
        ).exit(later_reason, later_value) == s.exit(reason, return_value@),
        s.runtime_step(
            RuntimeEvent::StepResult { result: Err(Capture::Exit(reason)), return_value },
        ).entries == s.entries,
{
}

/// Where transactions are not announced, a step that ends a context does what an exit does.
pub proof fn legacy_step_exit(s: ClState, reason: ExitReason, return_value: Vec<u8>)
    requires
        s.version == TracingVersion::Legacy,
        s.step_result_entry is None,
    ensures
        s.exit(reason, return_value@) == s.runtime_step(
            RuntimeEvent::StepResult { result: Err(Capture::Exit(reason)), return_value },
        ).known(),
{
}

/// The kind of event stream changes with the first announcement of a transaction, and with
/// nothing else; it never changes back.
pub proof fn version_changes_once(s: ClState, event: Event)
    ensures
        s.step(event).version == match event {
            Event::Evm(event) if is_transact(event) => TracingVersion::EarlyTransact,
            _ => s.version,
        },
{
}

/// Whether two views of an open context differ in nothing but the gas and the entries counted
/// below it.
pub open spec fn same_context(a: ContextView, b: ContextView) -> bool {
    a == (ContextView { subtraces: a.subtraces, gas: a.gas, start_gas: a.start_gas, ..b })
}

/// While contexts are open an event touches none but the innermost one, and of that one only the
/// gas and the number of entries below it; this number grows by one with each call, creation or
/// destruction of an account that gets an entry.
pub proof fn open_contexts_kept(s: ClState, event: Event, i: int)
    requires
        s.admits(event),
        0 <= i < s.context_stack.len(),
        i < s.step(event).context_stack.len(),
    ensures
        same_context(s.step(event).context_stack[i], s.context_stack[i]),
        i < s.context_stack.len() - 1 ==> s.step(event).context_stack[i] == s.context_stack[i],
        s.step(event).context_stack[i].subtraces == s.context_stack[i].subtraces + if i
            == s.context_stack.len() - 1 && gets_entry(s, event) && !(event matches Event::Evm(e)
            && is_transact(e)) {
            1int
        } else {
            0
        },
{
}

/// The gas at which a context started is the first that the gasometer tells, and the gas left is
/// the last: the gas used is their difference.
pub proof fn gas_first_and_last(s: ClState, first: u64, second: u64)
    requires
        s.context_stack.len() > 0,
        s.context_stack.last().start_gas is None,
    ensures
        ({
            let c = s.note_gas(first).note_gas(second).context_stack.last();
            &&& c.start_gas == Some(first)
            &&& c.gas == second
            &&& c.entries_index != 0 ==> c.gas_used(s.transaction_cost) == first - second
            &&& c.entries_index == 0 ==> c.gas_used(s.transaction_cost) == first - second
                + s.transaction_cost
        }),
{
}

/// Whether the event tells a call, a creation or an exit of the transaction.
pub open spec fn makes_known(event: Event) -> bool {
    match event {
        Event::Evm(event) => is_transact(event) || is_call_or_create(event) || event is Exit,
        _ => false,
    }
}

/// The cost of a transaction is all that is known of it from the event that tells it, if nothing
/// came before, to the first call, creation or exit; after that it never is, until the transaction
/// is over.
pub proof fn cost_alone(s: ClState, event: Event)
    requires
        s.wf(),
    ensures
        s.step(event).record_transaction_event_only == match event {
            Event::Gasometer(GasometerEvent::RecordTransaction { .. }) => !s.transaction_known,
            Event::CallListNew() => s.call_list_first_transaction
                && s.record_transaction_event_only,
            _ => s.record_transaction_event_only && !makes_known(event),
        },
        s.step(event).transaction_known == match event {
            Event::CallListNew() => s.call_list_first_transaction && s.transaction_known,
            _ => s.transaction_known || makes_known(event),
        },
{
}

/// A transaction of which nothing but its cost is known gets an entry that says so.
pub proof fn unpaid_transaction(s: ClState, event: GasometerEvent)
    requires
        s.wf(),
        event is RecordTransaction,
        !s.transaction_known,
        s.entries_next_index < u32::MAX,
    ensures
        s.gasometer_step(event).admits_finish(),
        current_list(s.gasometer_step(event).finish()) == current_list(s).insert(
            s.entries_next_index,
            unpaid_entry(),
        ),
        s.gasometer_step(event).finish().entries_next_index == s.entries_next_index + 1,
{
    lemma_insert_entry(s.gasometer_step(event), s.entries_next_index, unpaid_entry());
}

/// So does one that comes after a transaction that is over, announced or not: what was known of
/// the one before does not count for it.
pub proof fn unpaid_after_finished(s: ClState, event: GasometerEvent)
    requires
        s.wf(),
        s.admits_finish(),
        event is RecordTransaction,
        s.finish().entries_next_index < u32::MAX,
    ensures
        s.finish().gasometer_step(event).admits_finish(),
        current_list(s.finish().gasometer_step(event).finish()) == current_list(s.finish()).insert(
            s.finish().entries_next_index,
            unpaid_entry(),
        ),
{
    finish_wf(s);
    unpaid_transaction(s.finish(), event);
}

/// A transaction of which more is known gets no such entry, whenever its cost is told: ending it
/// is the same as if its cost had been known from the start.
pub proof fn paid_transaction(s: ClState, event: GasometerEvent)
    requires
        s.wf(),
        event is RecordTransaction,
        s.transaction_known,
    ensures
        s.gasometer_step(event).finish() == (ClState {
            transaction_cost: s.gasometer_step(event).transaction_cost,
            ..s
        }).finish(),
        s.context_stack.len() == 0 ==> s.gasometer_step(event).finish().entries
            == s.add_waiting().entries,
{
}

/// The current list once the entry that waits has been added.
pub open spec fn list_with_waiting(s: ClState) -> Map<u32, CallView> {
    match s.step_result_entry {
        Some((key, entry)) => current_list(s).insert(key, entry),
        None => current_list(s),
    }
}

pub(crate) proof fn lemma_add_waiting(s: ClState)
    ensures
        current_list(s.add_waiting()) == list_with_waiting(s),
{
    let taken = ClState { step_result_entry: None, ..s };
    assert(current_list(taken) == current_list(s));
    match s.step_result_entry {
        Some((key, entry)) => lemma_insert_entry(taken, key, entry),
        None => {},
    }
}

/// Once every context of a transaction has ended, and the transaction with them, the list has
/// grown by exactly one entry for each context opened and each account destroyed, whether the
/// last end was announced or not; if it was, ending the transaction changes nothing else than that
/// nothing is known of the one after it.
pub proof fn closed_transaction_complete(s: ClState, events: Seq<Event>)
    requires
        s.wf(),
        fresh(s),
        s.context_stack.len() == 0,
        s.step_result_entry is None,
        one_transaction(s, events),
        run(s, events).context_stack.len() == 0,
        !run(s, events).record_transaction_event_only,
    ensures
        current_list(run(s, events).finish()).len() == current_list(s).len() + entries_requested(
            s,
            events,
        ),
        run(s, events).step_result_entry is None ==> run(s, events).finish() == (ClState {
            transaction_known: false,
            ..run(s, events)
        }),
{
    let t = run(s, events);
    run_entries_due(s, events);
    lemma_add_waiting(t);
    match t.step_result_entry {
        Some((key, _)) => {
            if current_list(t).contains_key(key) {
                assert(is_waiting(t, key));
            }
        },
        None => {},
    }
}

/// The end of a transaction adds the entry that waits, so that the exit which follows the last step
/// that ends a context may be told or not: once every context has ended, and more than its cost is
/// known of the transaction, this is all that its end does, but that nothing is known of the one
/// after it.
pub proof fn finish_adds_waiting(s: ClState)
    requires
        s.wf(),
        s.context_stack.len() == 0,
        s.transaction_known,
    ensures
        s.admits_finish(),
        s.finish() == (ClState { transaction_known: false, ..s.add_waiting() }),
        current_list(s.finish()) == list_with_waiting(s),
        forall|reason: ExitReason, return_value: Seq<u8>| #[trigger]
            s.exit(reason, return_value).finish() == s.finish(),
{
    lemma_add_waiting(s);
}

/// A transaction that was cut short gets the entry that waits and that of its outermost context,
/// under that context's key, and the next key is the one after it.
pub proof fn cut_short_transaction(s: ClState)
    requires
        s.wf(),
        s.context_stack.len() > 0,
    ensures
        current_list(s.finish()) == list_with_waiting(s).insert(
            s.context_stack[0].entries_index,
            s.context_stack[0].early_exit_entry(s.transaction_cost),
        ),
        s.finish().context_stack.len() == 0,
        s.finish().entries_next_index == s.context_stack[0].entries_index + 1,
{
    let root = s.context_stack[0];
    let cleared = ClState { context_stack: Seq::empty(), ..s.add_waiting() };
    lemma_add_waiting(s);
    lemma_insert_entry(cleared, root.entries_index, root.early_exit_entry(s.transaction_cost));
    assert(current_list(cleared) == current_list(s.add_waiting()));
}

/// Ending a transaction twice is ending it once, unless its cost is all that is known of it.
pub proof fn finish_again(s: ClState)
    requires
        s.wf(),
        !s.record_transaction_event_only,
    ensures
        s.finish().admits_finish(),
        s.finish().finish() == s.finish(),
{
}

/// Lists before the last one never change, no list is dropped, and no key leaves a list.
pub proof fn lists_only_grow(s: ClState, event: Event)
    ensures
        s.entries.len() <= s.step(event).entries.len(),
        forall|i: int|
            0 <= i < s.entries.len() - 1 ==> #[trigger] s.step(event).entries[i] == s.entries[i],
        s.entries.len() > 0 ==> s.entries.last().dom().subset_of(
            s.step(event).entries[s.entries.len() - 1].dom(),
        ),
{
}

} // verus!
