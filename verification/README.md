# evm_tracing

Listeners that turn the event stream of an EVM execution into traces, verified with Verus.

* `ListenerCl` builds the call lists of the transactions of a block.
* `ListenerRaw` records each opcode that one transaction runs.

| Path | What it holds |
| --- | --- |
| `src/types.rs`, `src/events.rs` | plain values, and the events made of them |
| `src/calls.rs` | entries of a call list, kinds of context, messages of errors |
| `src/call_list/` | `ListenerCl`: the code, the model of its state, and its laws; `tree.rs` states what a finished list holds |
| `src/raw/` | `ListenerRaw`: the code, the model of its state, and its laws |
| `app/` | connects the listeners to the EVM |

The contract of each method says how an event changes the listener's state, and which events can
be taken in: those for which no gas is missing, no counter overflows, and no memory or stack was
filtered out that is to be recorded. `can_take` and `can_finish` tell at run time.
