//! Listeners that turn the event stream of an EVM execution into traces.
//!
//! * [`ListenerCl`](call_list::ListenerCl) builds the call lists of the transactions of a block.
//! * [`ListenerRaw`](raw::ListenerRaw) records each opcode that one transaction runs.
//!
//! The state of each listener is a mathematical value, and the contract of each method says how
//! an event changes it. What holds of any sequence of events is proved in the `laws` modules.

pub mod call_list;
pub mod calls;
pub mod events;
pub mod raw;
pub mod types;
