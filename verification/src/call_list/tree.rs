//! The entries of a transaction form a tree, listed in the order in which it is walked.

use vstd::prelude::*;

use super::laws::{
    current_list, entries_conserved, entries_due, fresh, gets_entry, initial_fresh, is_open,
    is_step_exit, is_transact, is_waiting, lemma_add_waiting, lemma_count_child_wf,
    lemma_fresh_same, lemma_insert_entry, list_with_waiting, one_transaction, run,
    run_entries_due, step_wf,
};
use super::model::{ClState, ContextView, TracingVersion};
use super::paths::{
    children_precede, node_precedes_children, precedes, precedes_irreflexive, precedes_transitive,
};
use crate::calls::CallView;
use crate::events::{Event, EvmEvent, RuntimeEvent};
use crate::types::{Capture, ExitReason, H160};

verus! {

/// The place of an entry in the tree: its path, and the number of entries directly below it.
pub ghost struct Node {
    pub path: Seq<u32>,
    pub subtraces: u32,
}

/// The place of an entry.
pub open spec fn call_node(call: CallView) -> Node {
    Node { path: call.trace_address, subtraces: call.subtraces }
}

/// The place of the entry that an open context will get.
pub open spec fn context_node(context: ContextView) -> Node {
    Node { path: context.trace_address, subtraces: context.subtraces }
}

/// Whether `key` belongs to an entry of the current list, listed or still due.
pub open spec fn is_due(s: ClState, key: u32) -> bool {
    current_list(s).contains_key(key) || is_waiting(s, key) || is_open(s, key)
}

/// The open context to which `key` belongs.
pub open spec fn open_at(s: ClState, key: u32) -> ContextView {
    s.context_stack[choose|i: int|
        0 <= i < s.context_stack.len() && #[trigger] s.context_stack[i].entries_index == key]
}

/// The place of the entry to which `key` belongs.
pub open spec fn node_at(s: ClState, key: u32) -> Node {
    if current_list(s).contains_key(key) {
        call_node(current_list(s)[key])
    } else if is_waiting(s, key) {
        call_node(s.step_result_entry->Some_0.1)
    } else {
        context_node(open_at(s, key))
    }
}

/// The places of all entries of the current list, listed or still due, by their keys.
#[verifier::opaque]
pub open spec fn nodes(s: ClState) -> Map<u32, Node> {
    Map::new(|key: u32| is_due(s, key), |key: u32| node_at(s, key))
}

/// Whether a node has this path.
pub open spec fn has_path(nodes: Map<u32, Node>, path: Seq<u32>) -> bool {
    exists|key: u32| nodes.contains_key(key) && (#[trigger] nodes[key]).path == path
}

/// Whether a node has this path and more than `index` nodes directly below it.
pub open spec fn has_child(nodes: Map<u32, Node>, path: Seq<u32>, index: u32) -> bool {
    exists|key: u32|
        nodes.contains_key(key) && (#[trigger] nodes[key]).path == path && index
            < nodes[key].subtraces
}

/// Whether the nodes form trees: below each there are as many as it counts, numbered from zero;
/// and each that is not a root is below another that counts it.
pub open spec fn is_tree(nodes: Map<u32, Node>) -> bool {
    &&& forall|key: u32, index: u32|
        nodes.contains_key(key) && index < nodes[key].subtraces ==> has_path(
            nodes,
            #[trigger] nodes[key].path.push(index),
        )
    &&& forall|key: u32|
        nodes.contains_key(key) && (#[trigger] nodes[key]).path.len() > 0 ==> has_child(
            nodes,
            nodes[key].path.drop_last(),
            nodes[key].path.last(),
        )
}

/// The keys and places as the current list, the waiting entry and the open contexts have them.
proof fn lemma_nodes(s: ClState)
    requires
        s.wf(),
        fresh(s),
    ensures
        forall|key: u32| #[trigger]
            current_list(s).contains_key(key) ==> nodes(s).contains_key(key) && nodes(s)[key]
                == call_node(current_list(s)[key]),
        s.step_result_entry matches Some(entry) ==> nodes(s).contains_key(entry.0)
            && nodes(s)[entry.0] == call_node(entry.1),
        forall|i: int|
            0 <= i < s.context_stack.len() ==> nodes(s).contains_key(
                (#[trigger] s.context_stack[i]).entries_index,
            ) && nodes(s)[s.context_stack[i].entries_index] == context_node(s.context_stack[i]),
        forall|key: u32| #[trigger]
            nodes(s).contains_key(key) ==> is_due(s, key) && key < s.entries_next_index,
{
    reveal(nodes);
    match s.step_result_entry {
        Some((key, entry)) => {
            assert(is_waiting(s, key));
        },
        None => {},
    }
    assert forall|i: int| 0 <= i < s.context_stack.len() implies nodes(s).contains_key(
        (#[trigger] s.context_stack[i]).entries_index,
    ) && nodes(s)[s.context_stack[i].entries_index] == context_node(s.context_stack[i]) by {
        let key = s.context_stack[i].entries_index;
        assert(is_open(s, key));
        let j = choose|j: int|
            0 <= j < s.context_stack.len() && #[trigger] s.context_stack[j].entries_index == key;
        if i < j {
            assert(s.context_stack[i].entries_index < s.context_stack[j].entries_index);
        } else if j < i {
            assert(s.context_stack[j].entries_index < s.context_stack[i].entries_index);
        }
    }
    assert forall|key: u32| #[trigger] nodes(s).contains_key(key) implies is_due(s, key) && key
        < s.entries_next_index by {
        if is_open(s, key) {
            let i = choose|i: int|
                0 <= i < s.context_stack.len() && #[trigger] s.context_stack[i].entries_index
                    == key;
            assert(s.context_stack[i].entries_index < s.entries_next_index);
        }
    }
}

/// The nodes are told by the current list, the waiting entry and the open contexts.
proof fn lemma_nodes_are(s: ClState, expected: Map<u32, Node>)
    requires
        s.wf(),
        fresh(s),
        forall|key: u32| #[trigger]
            current_list(s).contains_key(key) ==> expected.contains_key(key) && expected[key]
                == call_node(current_list(s)[key]),
        s.step_result_entry matches Some(entry) ==> expected.contains_key(entry.0)
            && expected[entry.0] == call_node(entry.1),
        forall|i: int|
            0 <= i < s.context_stack.len() ==> expected.contains_key(
                (#[trigger] s.context_stack[i]).entries_index,
            ) && expected[s.context_stack[i].entries_index] == context_node(s.context_stack[i]),
        forall|key: u32| #[trigger] expected.contains_key(key) ==> is_due(s, key),
    ensures
        nodes(s) == expected,
{
    reveal(nodes);
    lemma_nodes(s);
    assert forall|key: u32| #[trigger] nodes(s).contains_key(key) implies expected.contains_key(
        key,
    ) && expected[key] == nodes(s)[key] by {
        if is_open(s, key) {
            let i = choose|i: int|
                0 <= i < s.context_stack.len() && #[trigger] s.context_stack[i].entries_index
                    == key;
            assert(s.context_stack[i].entries_index == key);
        }
    }
    assert(nodes(s) =~= expected);
}

/// What touches neither the list, nor the waiting entry, nor the keys, paths and numbers of the
/// open contexts keeps the nodes.
proof fn lemma_nodes_same(s: ClState, t: ClState)
    requires
        s.wf(),
        fresh(s),
        t.wf(),
        fresh(t),
        t.entries == s.entries,
        t.step_result_entry == s.step_result_entry,
        t.context_stack.len() == s.context_stack.len(),
        forall|i: int|
            0 <= i < s.context_stack.len() ==> {
                let (a, b) = (s.context_stack[i], #[trigger] t.context_stack[i]);
                a.entries_index == b.entries_index && context_node(a) == context_node(b)
            },
    ensures
        nodes(t) == nodes(s),
{
    lemma_nodes(s);
    assert(current_list(t) == current_list(s));
    assert forall|key: u32| #[trigger] nodes(s).contains_key(key) implies is_due(t, key) by {
        if is_open(s, key) {
            let i = choose|i: int|
                0 <= i < s.context_stack.len() && #[trigger] s.context_stack[i].entries_index
                    == key;
            assert(t.context_stack[i].entries_index == key);
        }
    }
    lemma_nodes_are(t, nodes(s));
}

/// Closing the innermost context keeps the nodes, whether its entry is listed or waits.
proof fn lemma_nodes_close(s: ClState, t: ClState, call: CallView)
    requires
        s.wf(),
        fresh(s),
        t.wf(),
        fresh(t),
        s.context_stack.len() > 0,
        t.context_stack == s.context_stack.drop_last(),
        call_node(call) == context_node(s.context_stack.last()),
        ({
            let key = s.context_stack.last().entries_index;
            ||| current_list(t) == current_list(s).insert(key, call) && t.step_result_entry
                == s.step_result_entry
            ||| current_list(t) == current_list(s) && s.step_result_entry is None
                && t.step_result_entry == Some((key, call))
        }),
    ensures
        nodes(t) == nodes(s),
{
    let n = s.context_stack.len() - 1;
    let last = s.context_stack[n].entries_index;
    lemma_nodes(s);
    assert forall|i: int| 0 <= i < t.context_stack.len() implies #[trigger] t.context_stack[i]
        == s.context_stack[i] by {}
    assert(nodes(s).contains_key(last));
    assert forall|key: u32| #[trigger] nodes(s).contains_key(key) implies is_due(t, key) by {
        if is_open(s, key) {
            let i = choose|i: int|
                0 <= i < s.context_stack.len() && #[trigger] s.context_stack[i].entries_index
                    == key;
            if i < n {
                assert(t.context_stack[i].entries_index == key);
            }
        }
    }
    lemma_nodes_are(t, nodes(s));
}

/// Listing the waiting entry keeps the nodes.
proof fn lemma_nodes_add_waiting(s: ClState, t: ClState)
    requires
        s.wf(),
        fresh(s),
        t.wf(),
        fresh(t),
        t.context_stack == s.context_stack,
        t.step_result_entry is None,
        current_list(t) == list_with_waiting(s),
    ensures
        nodes(t) == nodes(s),
{
    lemma_nodes(s);
    assert forall|key: u32| #[trigger] nodes(s).contains_key(key) implies is_due(t, key) by {
        if is_open(s, key) {
            let i = choose|i: int|
                0 <= i < s.context_stack.len() && #[trigger] s.context_stack[i].entries_index
                    == key;
            assert(t.context_stack[i].entries_index == key);
        }
    }
    lemma_nodes_are(t, nodes(s));
}

/// The nodes once an entry is added below the innermost context, or as a root if none is open.
pub open spec fn with_child(s: ClState) -> Map<u32, Node> {
    let child = Node { path: s.child_path(), subtraces: 0 };
    if s.context_stack.len() > 0 {
        let last = s.context_stack.last();
        nodes(s).insert(
            last.entries_index,
            Node { path: last.trace_address, subtraces: (last.subtraces + 1) as u32 },
        ).insert(s.entries_next_index, child)
    } else {
        nodes(s).insert(s.entries_next_index, child)
    }
}

/// The nodes once a root is added.
pub open spec fn with_root(s: ClState) -> Map<u32, Node> {
    nodes(s).insert(s.entries_next_index, Node { path: Seq::empty(), subtraces: 0 })
}

/// The nodes after an event: one that gets an entry of its own adds its node, and counts it in
/// the node above; no other changes any.
pub open spec fn nodes_after(s: ClState, event: Event) -> Map<u32, Node> {
    if !gets_entry(s, event) {
        nodes(s)
    } else if event matches Event::Evm(e) && is_transact(e) {
        with_root(s)
    } else {
        with_child(s)
    }
}

/// Opening a context under the next key adds its node.
proof fn lemma_nodes_push(s: ClState, t: ClState)
    requires
        s.wf(),
        fresh(s),
        t.wf(),
        fresh(t),
        t.entries == s.entries,
        t.step_result_entry == s.step_result_entry,
        t.context_stack.len() == s.context_stack.len() + 1,
        t.context_stack.drop_last() == s.context_stack,
        t.context_stack.last().entries_index == s.entries_next_index,
    ensures
        nodes(t) == nodes(s).insert(s.entries_next_index, context_node(t.context_stack.last())),
{
    let n = s.context_stack.len() as int;
    let next = s.entries_next_index;
    let expected = nodes(s).insert(next, context_node(t.context_stack.last()));
    lemma_nodes(s);
    assert(current_list(t) == current_list(s));
    assert forall|i: int| 0 <= i < n implies #[trigger] t.context_stack[i] == s.context_stack[i]
        && s.context_stack[i].entries_index < next by {
        assert(t.context_stack.drop_last()[i] == t.context_stack[i]);
    }
    assert(t.context_stack[n].entries_index == next);
    assert forall|key: u32| #[trigger] expected.contains_key(key) implies is_due(t, key) by {
        if key != next {
            assert(nodes(s).contains_key(key));
            if is_open(s, key) {
                let i = choose|i: int|
                    0 <= i < s.context_stack.len() && #[trigger] s.context_stack[i].entries_index
                        == key;
                assert(t.context_stack[i].entries_index == key);
            }
        }
    }
    lemma_nodes_are(t, expected);
}

/// Counting an entry below the innermost context counts it in the context's node.
proof fn lemma_nodes_count(s: ClState)
    requires
        s.wf(),
        fresh(s),
        s.has_room(),
        s.context_stack.len() > 0,
    ensures
        s.count_child().wf(),
        fresh(s.count_child()),
        ({
            let last = s.context_stack.last();
            nodes(s.count_child()) == nodes(s).insert(
                last.entries_index,
                Node { path: last.trace_address, subtraces: (last.subtraces + 1) as u32 },
            )
        }),
{
    let t = s.count_child();
    let n = s.context_stack.len() - 1;
    let last = s.context_stack[n];
    let expected = nodes(s).insert(
        last.entries_index,
        Node { path: last.trace_address, subtraces: (last.subtraces + 1) as u32 },
    );
    lemma_count_child_wf(s);
    lemma_fresh_same(s, t);
    lemma_nodes(s);
    assert(current_list(t) == current_list(s));
    assert(is_open(s, last.entries_index));
    assert forall|i: int| 0 <= i < n implies #[trigger] t.context_stack[i] == s.context_stack[i]
        && s.context_stack[i].entries_index < last.entries_index by {}
    assert forall|key: u32| #[trigger] expected.contains_key(key) implies is_due(t, key) by {
        if key == last.entries_index {
            assert(t.context_stack[n].entries_index == key);
        } else {
            assert(nodes(s).contains_key(key));
            if is_open(s, key) {
                let i = choose|i: int|
                    0 <= i < s.context_stack.len() && #[trigger] s.context_stack[i].entries_index
                        == key;
                assert(t.context_stack[i].entries_index == key);
            }
        }
    }
    lemma_nodes_are(t, expected);
}

/// Listing an entry under the next key adds its node.
proof fn lemma_nodes_list(s: ClState, t: ClState, entry: CallView)
    requires
        s.wf(),
        fresh(s),
        t.wf(),
        fresh(t),
        current_list(t) == current_list(s).insert(s.entries_next_index, entry),
        t.step_result_entry == s.step_result_entry,
        t.context_stack == s.context_stack,
    ensures
        nodes(t) == nodes(s).insert(s.entries_next_index, call_node(entry)),
{
    let next = s.entries_next_index;
    let expected = nodes(s).insert(next, call_node(entry));
    lemma_nodes(s);
    assert forall|key: u32| #[trigger] expected.contains_key(key) implies is_due(t, key) by {
        if key != next {
            assert(nodes(s).contains_key(key));
            if is_open(s, key) {
                let i = choose|i: int|
                    0 <= i < s.context_stack.len() && #[trigger] s.context_stack[i].entries_index
                        == key;
                assert(t.context_stack[i].entries_index == key);
            }
        }
    }
    lemma_nodes_are(t, expected);
}

/// A context opened below the innermost one adds its node, and counts it in the one above.
proof fn lemma_nodes_open_child(s: ClState, t: ClState)
    requires
        s.wf(),
        fresh(s),
        s.has_room(),
        t.wf(),
        fresh(t),
        t.entries == s.entries,
        t.step_result_entry == s.step_result_entry,
        t.context_stack.len() == s.context_stack.len() + 1,
        t.context_stack.drop_last() == s.count_child().context_stack,
        t.context_stack.last().entries_index == s.entries_next_index,
        t.context_stack.last().trace_address == s.child_path(),
        t.context_stack.last().subtraces == 0,
    ensures
        nodes(t) == with_child(s),
{
    if s.context_stack.len() > 0 {
        lemma_nodes_count(s);
    }
    lemma_nodes_push(s.count_child(), t);
}

proof fn lemma_nodes_destroy(s: ClState, address: H160, target: H160, balance: nat)
    requires
        s.wf(),
        fresh(s),
        s.has_room(),
        s.destroy(address, target, balance).wf(),
        fresh(s.destroy(address, target, balance)),
    ensures
        nodes(s.destroy(address, target, balance)) == with_child(s),
{
    let t = s.destroy(address, target, balance);
    let next = s.entries_next_index;
    let counted = s.count_child();
    let entry = t.entries.last()[next];
    if s.context_stack.len() > 0 {
        lemma_nodes_count(s);
    }
    lemma_insert_entry(counted, next, entry);
    assert(t.entries =~= counted.insert_entry(next, entry).entries);
    assert(current_list(t) == current_list(counted).insert(next, entry));
    lemma_nodes_list(counted, t, entry);
}

proof fn lemma_nodes_pop(s: ClState, t: ClState, reason: ExitReason, return_value: Seq<u8>)
    requires
        s.wf(),
        fresh(s),
        t.wf(),
        fresh(t),
        ({
            let (popped, entry) = s.pop_context(reason, return_value);
            ||| t == popped.insert_if_some(entry)
            ||| s.step_result_entry is None && t == (ClState {
                step_result_entry: entry,
                ..popped
            })
        }),
    ensures
        nodes(t) == nodes(s),
{
    if s.context_stack.len() > 0 {
        let (popped, entry) = s.pop_context(reason, return_value);
        let (key, call) = entry->Some_0;
        lemma_insert_entry(popped, key, call);
        assert(current_list(popped) == current_list(s));
        assert(current_list(ClState { step_result_entry: entry, ..popped }) == current_list(s));
        lemma_nodes_close(s, t, call);
    } else {
        lemma_nodes_same(s, t);
    }
}

proof fn lemma_nodes_exit(s: ClState, reason: ExitReason, return_value: Seq<u8>)
    requires
        s.wf(),
        fresh(s),
        s.exit(reason, return_value).wf(),
        fresh(s.exit(reason, return_value)),
    ensures
        nodes(s.exit(reason, return_value)) == nodes(s),
{
    let t = s.exit(reason, return_value);
    let known = s.known();
    lemma_fresh_same(s, known);
    lemma_nodes_same(s, known);
    if s.step_result_entry is Some {
        lemma_add_waiting(known);
        lemma_nodes_add_waiting(known, t);
    } else {
        lemma_nodes_pop(known, t, reason, return_value);
    }
}

/// Opening a context, as a root or below the innermost one, adds its node.
proof fn lemma_nodes_open(s: ClState, event: EvmEvent)
    requires
        s.wf(),
        fresh(s),
        s.admits_evm(event),
        gets_entry(s, Event::Evm(event)),
        !(event is Suicide),
        s.evm_step(event).wf(),
        fresh(s.evm_step(event)),
    ensures
        nodes(s.evm_step(event)) == nodes_after(s, Event::Evm(event)),
{
    let t = s.evm_step(event);
    if is_transact(event) {
        assert(t.context_stack.drop_last() =~= s.context_stack);
        lemma_nodes_push(s, t);
    } else {
        assert(t.context_stack.drop_last() =~= s.count_child().context_stack);
        lemma_nodes_open_child(s, t);
    }
}

/// What an event does to the nodes. As with the number of entries, a step that ends a context
/// while the entry of another still waits is left out: that entry is replaced.
pub proof fn step_nodes(s: ClState, event: Event)
    requires
        s.wf(),
        s.admits(event),
        fresh(s),
        !(event is CallListNew),
        is_step_exit(event) && s.version == TracingVersion::EarlyTransact
            && s.context_stack.len() > 0 ==> s.step_result_entry is None,
    ensures
        nodes(s.step(event)) == nodes_after(s, event),
{
    let t = s.step(event);
    step_wf(s, event);
    entries_conserved(s, event);
    match event {
        Event::Gasometer(_) => lemma_nodes_same(s, t),
        Event::Runtime(RuntimeEvent::StepResult {
            result: Err(Capture::Exit(reason)),
            return_value,
        }) => lemma_nodes_pop(s, t, reason, return_value@),
        Event::Runtime(_) => lemma_nodes_same(s, t),
        Event::Evm(EvmEvent::Exit { reason, return_value }) => lemma_nodes_exit(
            s,
            reason,
            return_value@,
        ),
        Event::Evm(EvmEvent::Suicide { address, target, balance }) => lemma_nodes_destroy(
            s,
            address,
            target,
            balance@,
        ),
        Event::Evm(e) => {
            if gets_entry(s, event) {
                lemma_nodes_open(s, e);
            } else {
                lemma_nodes_same(s, t);
            }
        },
        Event::CallListNew() => {},
    }
}

/// A root added under a new key keeps the tree.
proof fn lemma_tree_root(m: Map<u32, Node>, key: u32)
    requires
        is_tree(m),
        !m.contains_key(key),
    ensures
        is_tree(m.insert(key, Node { path: Seq::empty(), subtraces: 0 })),
{
    let t = m.insert(key, Node { path: Seq::empty(), subtraces: 0 });
    assert forall|k: u32| m.contains_key(k) implies #[trigger] t[k] == m[k] by {}
    assert forall|k: u32, index: u32|
        t.contains_key(k) && index < t[k].subtraces implies has_path(
        t,
        #[trigger] t[k].path.push(index),
    ) by {
        assert(has_path(m, m[k].path.push(index)));
        let c = choose|c: u32|
            m.contains_key(c) && (#[trigger] m[c]).path == m[k].path.push(index);
        assert(t[c].path == t[k].path.push(index));
    }
    assert forall|k: u32| t.contains_key(k) && (#[trigger] t[k]).path.len() > 0 implies has_child(
        t,
        t[k].path.drop_last(),
        t[k].path.last(),
    ) by {
        assert(has_child(m, m[k].path.drop_last(), m[k].path.last()));
        let p = choose|p: u32|
            m.contains_key(p) && (#[trigger] m[p]).path == m[k].path.drop_last()
                && m[k].path.last() < m[p].subtraces;
        assert(t[p].path == t[k].path.drop_last());
    }
}

/// The next node below another, added under a new key and counted, keeps the tree.
proof fn lemma_tree_child(m: Map<u32, Node>, parent: u32, key: u32)
    requires
        is_tree(m),
        m.contains_key(parent),
        m[parent].subtraces < u32::MAX,
        !m.contains_key(key),
    ensures
        is_tree(
            m.insert(
                parent,
                Node { path: m[parent].path, subtraces: (m[parent].subtraces + 1) as u32 },
            ).insert(key, Node { path: m[parent].path.push(m[parent].subtraces), subtraces: 0 }),
        ),
{
    let above = m[parent].path;
    let count = m[parent].subtraces;
    let t = m.insert(parent, Node { path: above, subtraces: (count + 1) as u32 }).insert(
        key,
        Node { path: above.push(count), subtraces: 0 },
    );
    assert forall|k: u32| m.contains_key(k) implies (#[trigger] t[k]).path == m[k].path
        && t[k].subtraces >= m[k].subtraces by {}
    assert(t[key].path == above.push(count));
    assert(t[parent].subtraces == count + 1);
    assert forall|k: u32, index: u32|
        t.contains_key(k) && index < t[k].subtraces implies has_path(
        t,
        #[trigger] t[k].path.push(index),
    ) by {
        if k != parent || index != count {
            assert(has_path(m, m[k].path.push(index)));
            let c = choose|c: u32|
                m.contains_key(c) && (#[trigger] m[c]).path == m[k].path.push(index);
            assert(t[c].path == t[k].path.push(index));
        }
    }
    assert forall|k: u32| t.contains_key(k) && (#[trigger] t[k]).path.len() > 0 implies has_child(
        t,
        t[k].path.drop_last(),
        t[k].path.last(),
    ) by {
        if k == key {
            assert(t[k].path.drop_last() =~= above);
            assert(t[parent].path == above);
        } else {
            assert(has_child(m, m[k].path.drop_last(), m[k].path.last()));
            let p = choose|p: u32|
                m.contains_key(p) && (#[trigger] m[p]).path == m[k].path.drop_last()
                    && m[k].path.last() < m[p].subtraces;
            assert(t[p].path == t[k].path.drop_last());
        }
    }
}

/// Every event of one transaction keeps the tree.
pub proof fn step_keeps_tree(s: ClState, event: Event)
    requires
        s.wf(),
        s.admits(event),
        fresh(s),
        is_tree(nodes(s)),
        !(event is CallListNew),
        is_step_exit(event) && s.version == TracingVersion::EarlyTransact
            && s.context_stack.len() > 0 ==> s.step_result_entry is None,
    ensures
        is_tree(nodes(s.step(event))),
{
    step_nodes(s, event);
    lemma_nodes(s);
    let next = s.entries_next_index;
    assert(!nodes(s).contains_key(next));
    if gets_entry(s, event) {
        if (event matches Event::Evm(e) && is_transact(e)) || s.context_stack.len() == 0 {
            lemma_tree_root(nodes(s), next);
        } else {
            let last = s.context_stack[s.context_stack.len() - 1];
            assert(nodes(s)[last.entries_index] == context_node(last));
            lemma_tree_child(nodes(s), last.entries_index, next);
        }
    }
}

/// Whether the event is in its place in a transaction with one root: if it gets an entry, this is
/// the first one, or is below an open context.
pub open spec fn is_below_root(s: ClState, event: Event) -> bool {
    gets_entry(s, event) && entries_due(s) > 0 ==> s.context_stack.len() > 0 && !(event matches
        Event::Evm(e) && is_transact(e))
}

/// Whether every event is in its place in a transaction with one root.
pub open spec fn has_one_root(s: ClState, events: Seq<Event>) -> bool
    decreases events.len(),
{
    events.len() > 0 ==> is_below_root(s, events[0]) && has_one_root(
        s.step(events[0]),
        events.drop_first(),
    )
}

/// The path of the next entry below the open context `i`.
pub open spec fn next_path(s: ClState, i: int) -> Seq<u32> {
    s.context_stack[i].trace_address.push(s.context_stack[i].subtraces)
}

/// Whether the entries, listed or still due, are those with the keys from `first` on, in the order
/// in which their tree is walked, with a root at the beginning; what is still to come below an
/// open context comes after all of them.
pub open spec fn in_order(s: ClState, first: u32) -> bool {
    &&& first <= s.entries_next_index
    &&& forall|key: u32| #[trigger]
        nodes(s).contains_key(key) <==> first <= key < s.entries_next_index
    &&& forall|a: u32, b: u32|
        #![trigger nodes(s)[a], nodes(s)[b]]
        first <= a < b < s.entries_next_index ==> precedes(nodes(s)[a].path, nodes(s)[b].path)
    &&& forall|key: u32, i: int|
        #![trigger nodes(s)[key], s.context_stack[i]]
        first <= key < s.entries_next_index && 0 <= i < s.context_stack.len() ==> precedes(
            nodes(s)[key].path,
            next_path(s, i),
        )
    &&& forall|i: int|
        0 <= i < s.context_stack.len() ==> (#[trigger] s.context_stack[i]).trace_address.len() == i
    &&& first < s.entries_next_index ==> nodes(s)[first].path.len() == 0
}

/// Without entries there are no nodes.
proof fn lemma_no_nodes(s: ClState)
    requires
        s.wf(),
        fresh(s),
        entries_due(s) == 0,
    ensures
        forall|key: u32| !(#[trigger] nodes(s).contains_key(key)),
        is_tree(nodes(s)),
        in_order(s, s.entries_next_index),
{
    current_list(s).dom().lemma_len0_is_empty();
    lemma_nodes(s);
    assert forall|key: u32| !(#[trigger] nodes(s).contains_key(key)) by {
        if nodes(s).contains_key(key) {
            assert(is_due(s, key));
            assert(!current_list(s).dom().contains(key));
        }
    }
}

/// An entry added below the innermost context comes after all that there are, and before all that
/// are still to come.
proof fn lemma_order_child(s: ClState, t: ClState, first: u32)
    requires
        s.wf(),
        fresh(s),
        in_order(s, first),
        s.context_stack.len() > 0,
        s.context_stack.last().subtraces < u32::MAX,
        s.entries_next_index < u32::MAX,
        t.entries_next_index == s.entries_next_index + 1,
        nodes(t) == with_child(s),
        t.context_stack == s.count_child().context_stack || t.context_stack.len()
            == s.context_stack.len() + 1 && t.context_stack.drop_last()
            == s.count_child().context_stack && context_node(t.context_stack.last()) == (Node {
            path: s.child_path(),
            subtraces: 0,
        }),
    ensures
        in_order(t, first),
{
    let n = s.context_stack.len() - 1;
    let last = s.context_stack[n];
    let next = s.entries_next_index;
    let child = s.child_path();
    lemma_nodes(s);
    assert(nodes(s).contains_key(last.entries_index));
    assert(nodes(s)[last.entries_index] == context_node(last));
    assert(child == next_path(s, n));
    assert forall|key: u32| first <= key < next implies (#[trigger] nodes(t)[key]).path == nodes(
        s,
    )[key].path && precedes(nodes(t)[key].path, child) by {
        assert(nodes(s).contains_key(key));
        assert(precedes(nodes(s)[key].path, next_path(s, n)));
    }
    assert(nodes(t)[next].path == child);
    assert forall|i: int| 0 <= i < n implies #[trigger] t.context_stack[i] == s.context_stack[i] by {
        assert(s.count_child().context_stack[i] == s.context_stack[i]);
        if t.context_stack != s.count_child().context_stack {
            assert(t.context_stack.drop_last()[i] == t.context_stack[i]);
        }
    }
    assert(t.context_stack[n].trace_address == last.trace_address && t.context_stack[n].subtraces
        == last.subtraces + 1) by {
        if t.context_stack != s.count_child().context_stack {
            assert(t.context_stack.drop_last()[n] == t.context_stack[n]);
        }
    }
    node_precedes_children(last.trace_address, last.subtraces, (last.subtraces + 1) as u32);
    node_precedes_children(child, 0, 1);
    assert forall|key: u32, i: int|
        #![trigger nodes(t)[key], t.context_stack[i]]
        first <= key < t.entries_next_index && 0 <= i < t.context_stack.len() implies precedes(
        nodes(t)[key].path,
        next_path(t, i),
    ) by {
        let path = nodes(t)[key].path;
        if i < n {
            assert(next_path(t, i) == next_path(s, i));
            if key < next {
                assert(precedes(nodes(s)[key].path, next_path(s, i)));
            } else {
                assert(precedes(nodes(s)[last.entries_index].path, next_path(s, i)));
                assert(s.context_stack[i].trace_address.len() == i);
                children_precede(last.trace_address, last.subtraces, next_path(s, i));
            }
        } else {
            assert(precedes(child, next_path(t, i)));
            if key < next {
                precedes_transitive(path, child, next_path(t, i));
            }
        }
    }
    assert forall|key: u32| #[trigger] nodes(t).contains_key(key) <==> first <= key
        < t.entries_next_index by {
        assert(nodes(s).contains_key(key) <==> first <= key < next);
    }
    assert forall|a: u32, b: u32|
        #![trigger nodes(t)[a], nodes(t)[b]]
        first <= a < b < t.entries_next_index implies precedes(
        nodes(t)[a].path,
        nodes(t)[b].path,
    ) by {
        if b < next {
            assert(precedes(nodes(s)[a].path, nodes(s)[b].path));
        }
    }
    assert(first <= last.entries_index);
}

/// The first entry of a transaction is its root.
proof fn lemma_order_root(s: ClState, t: ClState)
    requires
        s.wf(),
        fresh(s),
        entries_due(s) == 0,
        s.entries_next_index < u32::MAX,
        t.entries_next_index == s.entries_next_index + 1,
        nodes(t) == with_root(s),
        t.context_stack.len() <= 1,
        t.context_stack.len() == 1 ==> context_node(t.context_stack[0]) == (Node {
            path: Seq::empty(),
            subtraces: 0,
        }),
    ensures
        in_order(t, s.entries_next_index),
{
    lemma_no_nodes(s);
    node_precedes_children(Seq::empty(), 0, 1);
    assert(nodes(t)[s.entries_next_index].path == Seq::<u32>::empty());
    assert forall|key: u32| #[trigger] nodes(t).contains_key(key) <==> s.entries_next_index <= key
        < t.entries_next_index by {
        assert(!nodes(s).contains_key(key));
    }
}

/// Every event of a transaction with one root keeps its entries in order.
pub proof fn step_keeps_order(s: ClState, event: Event, first: u32)
    requires
        s.wf(),
        s.admits(event),
        fresh(s),
        in_order(s, first),
        !(event is CallListNew),
        is_step_exit(event) && s.version == TracingVersion::EarlyTransact
            && s.context_stack.len() > 0 ==> s.step_result_entry is None,
        is_below_root(s, event),
    ensures
        in_order(s.step(event), first),
{
    let t = s.step(event);
    step_nodes(s, event);
    entries_conserved(s, event);
    if !gets_entry(s, event) {
        assert(t.context_stack.len() <= s.context_stack.len());
        assert forall|i: int| 0 <= i < t.context_stack.len() implies context_node(
            #[trigger] t.context_stack[i],
        ) == context_node(s.context_stack[i]) by {}
        assert forall|key: u32, i: int|
            #![trigger nodes(t)[key], t.context_stack[i]]
            first <= key < t.entries_next_index && 0 <= i < t.context_stack.len() implies precedes(
            nodes(t)[key].path,
            next_path(t, i),
        ) by {
            assert(next_path(t, i) == next_path(s, i));
            assert(precedes(nodes(s)[key].path, next_path(s, i)));
        }
    } else if entries_due(s) == 0 {
        lemma_no_nodes(s);
        assert(first == s.entries_next_index) by {
            if first < s.entries_next_index {
                assert(nodes(s).contains_key(first));
            }
        }
        lemma_order_root(s, t);
    } else {
        if !(event matches Event::Evm(EvmEvent::Suicide { .. })) {
            assert(t.context_stack.drop_last() =~= s.count_child().context_stack);
        }
        lemma_order_child(s, t, first);
    }
}

proof fn lemma_run_in_order(s: ClState, events: Seq<Event>, first: u32)
    requires
        s.wf(),
        fresh(s),
        is_tree(nodes(s)),
        in_order(s, first),
        one_transaction(s, events),
        has_one_root(s, events),
    ensures
        is_tree(nodes(run(s, events))),
        in_order(run(s, events), first),
    decreases events.len(),
{
    if events.len() > 0 {
        step_wf(s, events[0]);
        entries_conserved(s, events[0]);
        step_keeps_tree(s, events[0]);
        step_keeps_order(s, events[0], first);
        lemma_run_in_order(s.step(events[0]), events.drop_first(), first);
    }
}

proof fn lemma_run_lists(s: ClState, events: Seq<Event>)
    requires
        one_transaction(s, events),
    ensures
        run(s, events).entries.len() == s.entries.len() || s.entries.len() == 0 && run(
            s,
            events,
        ).entries.len() == 1,
    decreases events.len(),
{
    if events.len() > 0 {
        lemma_run_lists(s.step(events[0]), events.drop_first());
    }
}

/// Whether a list has an entry with this path.
pub open spec fn list_has_path(list: Map<u32, CallView>, path: Seq<u32>) -> bool {
    exists|key: u32| list.contains_key(key) && (#[trigger] list[key]).trace_address == path
}

/// Whether a list holds the tree of one transaction, walked from its root: its keys are those from
/// `first` up to `next`, without a gap; the entry with the first key is the root, with an empty
/// path; the paths rise with the keys in lexicographic order, so that no two are the same; each
/// entry has exactly as many entries directly below it as it counts, with the numbers from zero
/// on; and each entry but the root has one above it.
pub open spec fn is_walked_tree(list: Map<u32, CallView>, first: u32, next: u32) -> bool {
    &&& forall|key: u32| #[trigger] list.contains_key(key) <==> first <= key < next
    &&& first < next ==> list[first].trace_address.len() == 0
    &&& forall|a: u32, b: u32|
        #![trigger list[a], list[b]]
        first <= a < b < next ==> precedes(list[a].trace_address, list[b].trace_address)
            && list[a].trace_address != list[b].trace_address
    &&& forall|key: u32, index: u32|
        first <= key < next ==> (list_has_path(list, #[trigger] list[key].trace_address.push(index))
            <==> index < list[key].subtraces)
    &&& forall|key: u32|
        first <= key < next && (#[trigger] list[key]).trace_address.len() > 0 ==> list_has_path(
            list,
            list[key].trace_address.drop_last(),
        )
}

proof fn lemma_walked_tree(s: ClState, first: u32)
    requires
        s.wf(),
        fresh(s),
        s.context_stack.len() == 0,
        s.step_result_entry is None,
        is_tree(nodes(s)),
        in_order(s, first),
    ensures
        is_walked_tree(current_list(s), first, s.entries_next_index),
{
    let list = current_list(s);
    let m = nodes(s);
    let next = s.entries_next_index;
    lemma_nodes(s);
    assert forall|key: u32| #[trigger] list.contains_key(key) <==> first <= key < next by {
        assert(m.contains_key(key) <==> first <= key < next);
    }
    assert forall|key: u32| first <= key < next implies #[trigger] m[key] == call_node(
        list[key],
    ) by {
        assert(list.contains_key(key));
    }
    assert forall|path: Seq<u32>| #[trigger] has_path(m, path) implies list_has_path(
        list,
        path,
    ) by {
        let k = choose|k: u32| m.contains_key(k) && (#[trigger] m[k]).path == path;
        assert(list[k].trace_address == path);
    }
    assert forall|a: u32, b: u32|
        #![trigger list[a], list[b]]
        first <= a < b < next implies precedes(list[a].trace_address, list[b].trace_address)
        && list[a].trace_address != list[b].trace_address by {
        assert(precedes(m[a].path, m[b].path));
        precedes_irreflexive(m[a].path);
    }
    assert forall|key: u32, index: u32| first <= key < next implies (list_has_path(
        list,
        #[trigger] list[key].trace_address.push(index),
    ) <==> index < list[key].subtraces) by {
        let path = list[key].trace_address.push(index);
        assert(m[key].path.push(index) == path);
        if index < list[key].subtraces {
            assert(has_path(m, path));
        }
        if list_has_path(list, path) {
            let c = choose|c: u32| list.contains_key(c) && (#[trigger] list[c]).trace_address == path;
            assert(m[c].path == path);
            assert(path.drop_last() =~= m[key].path);
            assert(has_child(m, path.drop_last(), path.last()));
            let p = choose|p: u32|
                m.contains_key(p) && (#[trigger] m[p]).path == m[key].path && index
                    < m[p].subtraces;
            if p < key {
                assert(list[p].trace_address != list[key].trace_address);
            } else if key < p {
                assert(list[key].trace_address != list[p].trace_address);
            }
        }
    }
    assert forall|key: u32|
        first <= key < next && (#[trigger] list[key]).trace_address.len() > 0 implies list_has_path(
        list,
        list[key].trace_address.drop_last(),
    ) by {
        let above = m[key].path.drop_last();
        assert(has_child(m, above, m[key].path.last()));
        let p = choose|p: u32|
            m.contains_key(p) && (#[trigger] m[p]).path == above && m[key].path.last()
                < m[p].subtraces;
        assert(list[p].trace_address == above);
    }
}

/// Once every context of a transaction with one root has ended, and the transaction with them, its
/// list holds the tree of its calls, creations and destructions, walked from the root, under the
/// keys that the transaction has used up. All of it is in one list.
pub proof fn closed_transaction_is_tree(s: ClState, events: Seq<Event>)
    requires
        s.wf(),
        fresh(s),
        entries_due(s) == 0,
        one_transaction(s, events),
        has_one_root(s, events),
        run(s, events).context_stack.len() == 0,
        !run(s, events).record_transaction_event_only,
    ensures
        ({
            let t = run(s, events).finish();
            &&& is_walked_tree(current_list(t), s.entries_next_index, t.entries_next_index)
            &&& t.entries.len() == s.entries.len() || s.entries.len() == 0 && t.entries.len() == 1
            &&& s.entries_next_index < t.entries_next_index ==> t.entries.len() > 0
        }),
{
    let first = s.entries_next_index;
    let ended = run(s, events);
    let t = ended.finish();
    lemma_no_nodes(s);
    lemma_run_in_order(s, events, first);
    run_entries_due(s, events);
    lemma_run_lists(s, events);
    lemma_add_waiting(ended);
    lemma_nodes_add_waiting(ended, t);
    lemma_walked_tree(t, first);
    if first < t.entries_next_index {
        assert(current_list(t).contains_key(first));
    }
}

/// A new listener that is given one transaction with a root has one list, which holds the tree of
/// that transaction under the keys from zero on.
pub proof fn first_transaction_is_tree(events: Seq<Event>)
    requires
        one_transaction(ClState::initial(), events),
        has_one_root(ClState::initial(), events),
        run(ClState::initial(), events).context_stack.len() == 0,
        !run(ClState::initial(), events).record_transaction_event_only,
        run(ClState::initial(), events).entries_next_index > 0,
    ensures
        ({
            let t = run(ClState::initial(), events).finish();
            &&& t.entries.len() == 1
            &&& is_walked_tree(t.entries[0], 0, t.entries_next_index)
            &&& t.entries[0].contains_key(0)
        }),
{
    initial_fresh();
    closed_transaction_is_tree(ClState::initial(), events);
}

} // verus!
