//! The events that an EVM execution emits.

use vstd::prelude::*;

use crate::types::{
    Capture, CreateScheme, EvmContext, ExitReason, Memory, Snapshot, Stack, Transfer, H160, H256,
    U256,
};

verus! {

/// Any event.
#[derive(Debug)]
pub enum Event {
    /// From the gasometer.
    Gasometer(GasometerEvent),
    /// From the machine that runs the code of one context.
    Runtime(RuntimeEvent),
    /// From the machinery around the contexts.
    Evm(EvmEvent),
    /// Stands before each transaction of a block.
    CallListNew(),
}

/// Events of the gasometer.
#[derive(Debug)]
pub enum GasometerEvent {
    /// A fixed cost was paid.
    RecordCost { cost: u64, snapshot: Snapshot },
    /// A refund was noted.
    RecordRefund { refund: i64, snapshot: Snapshot },
    /// A stipend was granted.
    RecordStipend { stipend: u64, snapshot: Snapshot },
    /// A computed cost was paid.
    RecordDynamicCost { gas_cost: u64, memory_gas: u64, gas_refund: i64, snapshot: Snapshot },
    /// The cost of the transaction itself was paid.
    RecordTransaction { cost: u64, snapshot: Snapshot },
}

/// Events of the machine that runs the code of one context.
#[derive(Debug)]
pub enum RuntimeEvent {
    /// An opcode, given by its name, is about to run. The stack and the memory are there unless
    /// they were filtered out.
    Step {
        context: EvmContext,
        opcode: Vec<u8>,
        position: Result<u64, ExitReason>,
        stack: Option<Stack>,
        memory: Option<Memory>,
    },
    /// An opcode has run. A trap gives the opcode's name.
    StepResult { result: Result<(), Capture<ExitReason, Vec<u8>>>, return_value: Vec<u8> },
    /// A storage slot was read.
    SLoad { address: H160, index: H256, value: H256 },
    /// A storage slot was written.
    SStore { address: H160, index: H256, value: H256 },
}

/// Events of the machinery around the contexts.
#[derive(Debug)]
pub enum EvmEvent {
    /// A call begins.
    Call {
        code_address: H160,
        transfer: Option<Transfer>,
        input: Vec<u8>,
        target_gas: Option<u64>,
        is_static: bool,
        context: EvmContext,
    },
    /// The creation of a contract begins.
    Create {
        caller: H160,
        address: H160,
        scheme: CreateScheme,
        value: U256,
        init_code: Vec<u8>,
        target_gas: Option<u64>,
    },
    /// An account is destroyed.
    Suicide { address: H160, target: H160, balance: U256 },
    /// A context ends.
    Exit { reason: ExitReason, return_value: Vec<u8> },
    /// A transaction that is a call begins.
    TransactCall { caller: H160, address: H160, value: U256, data: Vec<u8>, gas_limit: u64 },
    /// A transaction that creates a contract begins.
    TransactCreate {
        caller: H160,
        value: U256,
        init_code: Vec<u8>,
        gas_limit: u64,
        address: H160,
    },
    /// A transaction that creates a contract at a salted address begins.
    TransactCreate2 {
        caller: H160,
        value: U256,
        init_code: Vec<u8>,
        salt: H256,
        gas_limit: u64,
        address: H160,
    },
    /// A precompiled contract makes a call.
    PrecompileSubcall {
        code_address: H160,
        transfer: Option<Transfer>,
        input: Vec<u8>,
        target_gas: Option<u64>,
        is_static: bool,
        context: EvmContext,
    },
}

/// What the `Step` events are to carry.
#[derive(Clone, Copy, Debug, PartialEq, Eq)]
pub struct StepEventFilter {
    /// Whether they carry the memory.
    pub enable_memory: bool,
    /// Whether they carry the stack.
    pub enable_stack: bool,
}

} // verus!
