use evm_tracing::call_list::ListenerCl;
use evm_tracing::calls::{
    error_message, Call, CallInner, CallResult, CallType, ContextType, CreateResult,
};
use evm_tracing::events::{Event, EvmEvent, GasometerEvent, RuntimeEvent, StepEventFilter};
use evm_tracing::types::{
    Capture, CreateScheme, EvmContext, ExitError, ExitFatal, ExitReason, ExitRevert, ExitSucceed,
    Memory, Snapshot, Stack, H160, H256, U256,
};

enum TestEvmEvent {
    Call,
    Create,
    Suicide,
    Exit,
    TransactCall,
    TransactCreate,
    TransactCreate2,
}

enum TestRuntimeEvent {
    Step,
    StepResult,
    SLoad,
    SStore,
}

enum TestGasometerEvent {
    RecordCost,
    RecordRefund,
    RecordStipend,
    RecordDynamicCost,
    RecordTransaction,
}

const NO_ADDRESS: H160 = (0, 0);
const NO_WORD: H256 = (0, 0);

fn test_context() -> EvmContext {
    EvmContext { address: NO_ADDRESS, caller: NO_ADDRESS, apparent_value: U256::zero() }
}

fn test_create_scheme() -> CreateScheme {
    CreateScheme::Legacy { caller: NO_ADDRESS }
}

fn test_stack() -> Option<Stack> {
    None
}

fn test_memory() -> Option<Memory> {
    None
}

fn test_snapshot() -> Snapshot {
    Snapshot { gas_limit: 0u64, memory_gas: 0u64, used_gas: 0u64, refunded_gas: 0i64 }
}

fn test_emit_evm_event(
    event_type: TestEvmEvent,
    is_static: bool,
    exit_reason: Option<ExitReason>,
) -> EvmEvent {
    match event_type {
        TestEvmEvent::Call => EvmEvent::Call {
            code_address: NO_ADDRESS,
            transfer: None,
            input: Vec::new(),
            target_gas: None,
            is_static,
            context: test_context(),
        },
        TestEvmEvent::Create => EvmEvent::Create {
            caller: NO_ADDRESS,
            address: NO_ADDRESS,
            scheme: test_create_scheme(),
            value: U256::zero(),
            init_code: Vec::new(),
            target_gas: None,
        },
        TestEvmEvent::Suicide => EvmEvent::Suicide {
            address: NO_ADDRESS,
            target: NO_ADDRESS,
            balance: U256::zero(),
        },
        TestEvmEvent::Exit => {
            EvmEvent::Exit { reason: exit_reason.unwrap(), return_value: Vec::new() }
        }
        TestEvmEvent::TransactCall => EvmEvent::TransactCall {
            caller: NO_ADDRESS,
            address: NO_ADDRESS,
            value: U256::zero(),
            data: Vec::new(),
            gas_limit: 0u64,
        },
        TestEvmEvent::TransactCreate => EvmEvent::TransactCreate {
            caller: NO_ADDRESS,
            value: U256::zero(),
            init_code: Vec::new(),
            gas_limit: 0u64,
            address: NO_ADDRESS,
        },
        TestEvmEvent::TransactCreate2 => EvmEvent::TransactCreate2 {
            caller: NO_ADDRESS,
            value: U256::zero(),
            init_code: Vec::new(),
            salt: NO_WORD,
            gas_limit: 0u64,
            address: NO_ADDRESS,
        },
    }
}

fn test_emit_runtime_event(event_type: TestRuntimeEvent) -> RuntimeEvent {
    match event_type {
        TestRuntimeEvent::Step => RuntimeEvent::Step {
            context: test_context(),
            opcode: Vec::new(),
            position: Ok(0u64),
            stack: test_stack(),
            memory: test_memory(),
        },
        TestRuntimeEvent::StepResult => {
            RuntimeEvent::StepResult { result: Ok(()), return_value: Vec::new() }
        }
        TestRuntimeEvent::SLoad => {
            RuntimeEvent::SLoad { address: NO_ADDRESS, index: NO_WORD, value: NO_WORD }
        }
        TestRuntimeEvent::SStore => {
            RuntimeEvent::SStore { address: NO_ADDRESS, index: NO_WORD, value: NO_WORD }
        }
    }
}

fn test_emit_gasometer_event(event_type: TestGasometerEvent) -> GasometerEvent {
    match event_type {
        TestGasometerEvent::RecordCost => {
            GasometerEvent::RecordCost { cost: 0u64, snapshot: test_snapshot() }
        }
        TestGasometerEvent::RecordRefund => {
            GasometerEvent::RecordRefund { refund: 0i64, snapshot: test_snapshot() }
        }
        TestGasometerEvent::RecordStipend => {
            GasometerEvent::RecordStipend { stipend: 0u64, snapshot: test_snapshot() }
        }
        TestGasometerEvent::RecordDynamicCost => GasometerEvent::RecordDynamicCost {
            gas_cost: 0u64,
            memory_gas: 0u64,
            gas_refund: 0i64,
            snapshot: test_snapshot(),
        },
        TestGasometerEvent::RecordTransaction => {
            GasometerEvent::RecordTransaction { cost: 0u64, snapshot: test_snapshot() }
        }
    }
}

fn do_transact_call_event(listener: &mut ListenerCl) {
    listener.evm_event(test_emit_evm_event(TestEvmEvent::TransactCall, false, None));
}

fn do_transact_create_event(listener: &mut ListenerCl) {
    listener.evm_event(test_emit_evm_event(TestEvmEvent::TransactCreate, false, None));
}

fn do_gasometer_event(listener: &mut ListenerCl) {
    listener.gasometer_event(test_emit_gasometer_event(TestGasometerEvent::RecordTransaction));
}

fn do_exit_event(listener: &mut ListenerCl) {
    listener.evm_event(test_emit_evm_event(
        TestEvmEvent::Exit,
        false,
        Some(ExitReason::Error(ExitError::OutOfGas)),
    ));
}

fn do_evm_call_event(listener: &mut ListenerCl) {
    listener.evm_event(test_emit_evm_event(TestEvmEvent::Call, false, None));
}

fn do_evm_create_event(listener: &mut ListenerCl) {
    listener.evm_event(test_emit_evm_event(TestEvmEvent::Create, false, None));
}

fn do_evm_suicide_event(listener: &mut ListenerCl) {
    listener.evm_event(test_emit_evm_event(TestEvmEvent::Suicide, false, None));
}

fn do_runtime_step_event(listener: &mut ListenerCl) {
    listener.runtime_event(test_emit_runtime_event(TestRuntimeEvent::Step));
}

fn do_runtime_step_result_event(listener: &mut ListenerCl) {
    listener.runtime_event(test_emit_runtime_event(TestRuntimeEvent::StepResult));
}

// Call context

// Early exit on TransactionCost.
#[test]
fn call_early_exit_tx_cost() {
    let mut listener = ListenerCl::default();
    do_transact_call_event(&mut listener);
    do_gasometer_event(&mut listener);
    do_exit_event(&mut listener);
    listener.finish_transaction();
    assert_eq!(listener.entries.len(), 1);
    assert_eq!(listener.entries[0].len(), 1);
}

// Early exit somewhere between the first callstack event and stepping the bytecode.
// I.e. precompile call.
#[test]
fn call_early_exit_before_runtime() {
    let mut listener = ListenerCl::default();
    do_transact_call_event(&mut listener);
    do_gasometer_event(&mut listener);
    do_evm_call_event(&mut listener);
    do_exit_event(&mut listener);
    listener.finish_transaction();
    assert_eq!(listener.entries.len(), 1);
    assert_eq!(listener.entries[0].len(), 1);
}

// Exit after Step without StepResult.
#[test]
fn call_step_without_step_result() {
    let mut listener = ListenerCl::default();
    do_transact_call_event(&mut listener);
    do_gasometer_event(&mut listener);
    do_evm_call_event(&mut listener);
    do_runtime_step_event(&mut listener);
    do_exit_event(&mut listener);
    listener.finish_transaction();
    assert_eq!(listener.entries.len(), 1);
    assert_eq!(listener.entries[0].len(), 1);
}

// Exit after StepResult.
#[test]
fn call_step_result() {
    let mut listener = ListenerCl::default();
    do_transact_call_event(&mut listener);
    do_gasometer_event(&mut listener);
    do_evm_call_event(&mut listener);
    do_runtime_step_event(&mut listener);
    do_runtime_step_result_event(&mut listener);
    do_exit_event(&mut listener);
    listener.finish_transaction();
    assert_eq!(listener.entries.len(), 1);
    assert_eq!(listener.entries[0].len(), 1);
}

// Suicide.
#[test]
fn call_suicide() {
    let mut listener = ListenerCl::default();
    do_transact_call_event(&mut listener);
    do_gasometer_event(&mut listener);
    do_evm_call_event(&mut listener);
    do_runtime_step_event(&mut listener);
    do_evm_suicide_event(&mut listener);
    do_exit_event(&mut listener);
    listener.finish_transaction();
    assert_eq!(listener.entries.len(), 1);
    assert_eq!(listener.entries[0].len(), 2);
}

// Create context

// Early exit on TransactionCost.
#[test]
fn create_early_exit_tx_cost() {
    let mut listener = ListenerCl::default();
    do_transact_create_event(&mut listener);
    do_gasometer_event(&mut listener);
    do_exit_event(&mut listener);
    listener.finish_transaction();
    assert_eq!(listener.entries.len(), 1);
    assert_eq!(listener.entries[0].len(), 1);
}

// Early exit somewhere between the first callstack event and stepping the bytecode
// I.e. precompile call..
#[test]
fn create_early_exit_before_runtime() {
    let mut listener = ListenerCl::default();
    do_transact_create_event(&mut listener);
    do_gasometer_event(&mut listener);
    do_evm_create_event(&mut listener);
    do_exit_event(&mut listener);
    listener.finish_transaction();
    assert_eq!(listener.entries.len(), 1);
    assert_eq!(listener.entries[0].len(), 1);
}

// Exit after Step without StepResult.
#[test]
fn create_step_without_step_result() {
    let mut listener = ListenerCl::default();
    do_transact_create_event(&mut listener);
    do_gasometer_event(&mut listener);
    do_evm_create_event(&mut listener);
    do_runtime_step_event(&mut listener);
    do_exit_event(&mut listener);
    listener.finish_transaction();
    assert_eq!(listener.entries.len(), 1);
    assert_eq!(listener.entries[0].len(), 1);
}

// Exit after StepResult.
#[test]
fn create_step_result() {
    let mut listener = ListenerCl::default();
    do_transact_create_event(&mut listener);
    do_gasometer_event(&mut listener);
    do_evm_create_event(&mut listener);
    do_runtime_step_event(&mut listener);
    do_runtime_step_result_event(&mut listener);
    do_exit_event(&mut listener);
    listener.finish_transaction();
    assert_eq!(listener.entries.len(), 1);
    assert_eq!(listener.entries[0].len(), 1);
}

// Call Context Nested

// Nested call early exit before stepping.
#[test]
fn nested_call_early_exit_before_runtime() {
    let mut listener = ListenerCl::default();
    // Main
    do_transact_call_event(&mut listener);
    do_gasometer_event(&mut listener);
    do_evm_call_event(&mut listener);
    do_runtime_step_event(&mut listener);
    do_runtime_step_result_event(&mut listener);
    // Nested
    do_evm_call_event(&mut listener);
    do_exit_event(&mut listener);
    // Main exit
    do_exit_event(&mut listener);
    listener.finish_transaction();
    assert_eq!(listener.entries.len(), 1);
    assert_eq!(listener.entries[0].len(), 2);
}

// Nested exit before step result.
#[test]
fn nested_call_without_step_result() {
    let mut listener = ListenerCl::default();
    // Main
    do_transact_call_event(&mut listener);
    do_gasometer_event(&mut listener);
    do_evm_call_event(&mut listener);
    do_runtime_step_event(&mut listener);
    do_runtime_step_result_event(&mut listener);
    // Nested
    do_evm_call_event(&mut listener);
    do_runtime_step_event(&mut listener);
    do_exit_event(&mut listener);
    // Main exit
    do_exit_event(&mut listener);
    listener.finish_transaction();
    assert_eq!(listener.entries.len(), 1);
    assert_eq!(listener.entries[0].len(), 2);
}

// Nested exit.
#[test]
fn nested_call_step_result() {
    let depth = 5;
    let mut listener = ListenerCl::default();
    // Main
    do_transact_call_event(&mut listener);
    do_gasometer_event(&mut listener);
    do_evm_call_event(&mut listener);
    do_runtime_step_event(&mut listener);
    do_runtime_step_result_event(&mut listener);
    // 5 nested calls
    for _ in 0..depth {
        do_evm_call_event(&mut listener);
        do_runtime_step_event(&mut listener);
        do_runtime_step_result_event(&mut listener);
        do_exit_event(&mut listener);
    }
    // Main exit
    do_exit_event(&mut listener);
    listener.finish_transaction();
    assert_eq!(listener.entries.len(), 1);
    assert_eq!(listener.entries[0].len(), depth + 1);
}

// Call + Create mixed subnesting.

#[test]
fn subnested_call_and_create_mixbag() {
    let depth = 5;
    let subdepth = 10;
    let mut listener = ListenerCl::default();
    // Main
    do_transact_call_event(&mut listener);
    do_gasometer_event(&mut listener);
    do_evm_call_event(&mut listener);
    do_runtime_step_event(&mut listener);
    do_runtime_step_result_event(&mut listener);
    // 5 nested call/creates, each with 10 nested call/creates
    for d in 0..depth {
        if d % 2 == 0 {
            do_evm_call_event(&mut listener);
        } else {
            do_evm_create_event(&mut listener);
        }
        do_runtime_step_event(&mut listener);
        do_runtime_step_result_event(&mut listener);
        for s in 0..subdepth {
            // Some mixed call/create and early exits.
            if s % 2 == 0 {
                do_evm_call_event(&mut listener);
            } else {
                do_evm_create_event(&mut listener);
            }
            if s % 3 == 0 {
                do_runtime_step_event(&mut listener);
                do_runtime_step_result_event(&mut listener);
            }
            do_exit_event(&mut listener);
        }
        // Nested exit
        do_exit_event(&mut listener);
    }
    // Main exit
    do_exit_event(&mut listener);
    listener.finish_transaction();
    assert_eq!(listener.entries.len(), 1);
    // Each nested call contains 11 elements in the callstack (main + 10 subcalls).
    // There are 5 main nested calls for a total of 56 elements in the callstack: 1 main + 55 nested.
    assert_eq!(listener.entries[0].len(), (depth * (subdepth + 1)) + 1);
}

// Values of the entries

fn call_event(caller: H160, code_address: H160, value: u64, input: Vec<u8>, is_static: bool) -> EvmEvent {
    EvmEvent::Call {
        code_address,
        transfer: None,
        input,
        target_gas: None,
        is_static,
        context: EvmContext {
            address: code_address,
            caller,
            apparent_value: U256([value, 0, 0, 0]),
        },
    }
}

fn exit_event(reason: ExitReason, return_value: Vec<u8>) -> EvmEvent {
    EvmEvent::Exit { reason, return_value }
}

fn step_exit(reason: ExitReason, return_value: Vec<u8>) -> RuntimeEvent {
    RuntimeEvent::StepResult { result: Err(Capture::Exit(reason)), return_value }
}

fn trap(opcode: &str) -> RuntimeEvent {
    RuntimeEvent::StepResult {
        result: Err(Capture::Trap(opcode.as_bytes().to_vec())),
        return_value: Vec::new(),
    }
}

fn cost_event(gas_limit: u64, used_gas: u64, memory_gas: u64) -> GasometerEvent {
    GasometerEvent::RecordCost {
        cost: 0,
        snapshot: Snapshot { gas_limit, memory_gas, used_gas, refunded_gas: 0 },
    }
}

fn transaction_cost(cost: u64) -> GasometerEvent {
    GasometerEvent::RecordTransaction { cost, snapshot: test_snapshot() }
}

fn number(value: u64) -> U256 {
    U256([value, 0, 0, 0])
}

fn call_parts(call: &Call) -> (CallType, H160, Vec<u8>, CallResult) {
    match &call.inner {
        CallInner::Call { call_type, to, input, res } => (
            *call_type,
            *to,
            input.to_vec(),
            match res {
                CallResult::Output(bytes) => CallResult::Output(bytes.to_vec()),
                CallResult::Error(bytes) => CallResult::Error(bytes.to_vec()),
            },
        ),
        _ => panic!("not a call"),
    }
}

#[test]
fn transaction_call_entry() {
    let mut listener = ListenerCl::default();
    listener.gasometer_event(transaction_cost(21_000));
    listener.evm_event(EvmEvent::TransactCall {
        caller: (1, 2),
        address: (3, 4),
        value: number(5),
        data: vec![6, 7],
        gas_limit: 100_000,
    });
    listener.evm_event(call_event((1, 2), (3, 4), 5, vec![6, 7], false));
    listener.gasometer_event(cost_event(1000, 100, 0));
    listener.gasometer_event(cost_event(1000, 300, 50));
    listener.evm_event(exit_event(ExitReason::Succeed(ExitSucceed::Returned), vec![9]));
    listener.finish_transaction();
    assert_eq!(listener.entries.len(), 1);
    assert_eq!(
        listener.entries[0][&0],
        Call {
            from: (1, 2),
            trace_address: vec![],
            subtraces: 0,
            value: number(5),
            gas: number(650),
            gas_used: number(900 - 650 + 21_000),
            inner: CallInner::Call {
                call_type: CallType::Call,
                to: (3, 4),
                input: vec![6, 7],
                res: CallResult::Output(vec![9]),
            },
        }
    );
}

#[test]
fn transaction_create_entry() {
    let mut listener = ListenerCl::default();
    listener.evm_event(EvmEvent::TransactCreate2 {
        caller: (1, 1),
        value: number(2),
        init_code: vec![3],
        salt: (0, 1),
        gas_limit: 0,
        address: (4, 4),
    });
    listener.evm_event(test_emit_evm_event(TestEvmEvent::Create, false, None));
    listener.evm_event(exit_event(ExitReason::Succeed(ExitSucceed::Stopped), vec![5, 5]));
    assert_eq!(
        listener.entries[0][&0],
        Call {
            from: (1, 1),
            trace_address: vec![],
            subtraces: 0,
            value: number(2),
            gas: number(0),
            gas_used: number(0),
            inner: CallInner::Create {
                init: vec![3],
                res: CreateResult::Success {
                    created_contract_address_hash: (4, 4),
                    created_contract_code: vec![5, 5],
                },
            },
        }
    );
}

#[test]
fn paths_and_callers() {
    let mut listener = ListenerCl::default();
    listener.evm_event(call_event((9, 9), (1, 0), 0, vec![], true));
    listener.runtime_event(trap("DelegateCall"));
    listener.evm_event(call_event((8, 8), (2, 0), 0, vec![], false));
    listener.evm_event(call_event((8, 8), (3, 0), 0, vec![], false));
    do_exit_event(&mut listener);
    do_evm_suicide_event(&mut listener);
    do_exit_event(&mut listener);
    listener.evm_event(EvmEvent::PrecompileSubcall {
        code_address: (0, 0),
        transfer: None,
        input: vec![],
        target_gas: None,
        is_static: false,
        context: test_context(),
    });
    listener.evm_event(call_event((8, 8), (4, 0), 0, vec![], true));
    do_exit_event(&mut listener);
    do_exit_event(&mut listener);
    let list = &listener.entries[0];
    assert_eq!(list.len(), 5);
    assert_eq!(list[&0].trace_address, Vec::<u32>::new());
    assert_eq!(list[&1].trace_address, vec![0]);
    assert_eq!(list[&2].trace_address, vec![0, 0]);
    assert_eq!(list[&3].trace_address, vec![0, 1]);
    assert_eq!(list[&4].trace_address, vec![1]);
    assert_eq!(list[&0].subtraces, 2);
    assert_eq!(list[&1].subtraces, 2);
    assert_eq!(list[&2].subtraces, 0);
    assert_eq!(list[&0].from, (9, 9));
    assert_eq!(list[&1].from, (1, 0));
    assert_eq!(list[&2].from, (2, 0));
    assert_eq!(list[&4].from, (1, 0));
    assert_eq!(call_parts(&list[&0]).0, CallType::StaticCall);
    assert_eq!(call_parts(&list[&1]).0, CallType::DelegateCall);
    assert_eq!(call_parts(&list[&2]).0, CallType::DelegateCall);
    assert_eq!(call_parts(&list[&4]).0, CallType::Call);
    assert_eq!(list[&3].inner, CallInner::SelfDestruct { to: (0, 0), balance: number(0) });
}

#[test]
fn step_exit_reason_is_kept_until_exit() {
    let mut listener = ListenerCl::default();
    do_transact_call_event(&mut listener);
    do_evm_call_event(&mut listener);
    listener.runtime_event(step_exit(ExitReason::Succeed(ExitSucceed::Returned), vec![1, 2]));
    assert_eq!(listener.entries.len(), 0);
    do_exit_event(&mut listener);
    assert_eq!(listener.entries[0].len(), 1);
    assert_eq!(call_parts(&listener.entries[0][&0]).3, CallResult::Output(vec![1, 2]));
}

#[test]
fn legacy_step_exit_adds_entry() {
    let mut listener = ListenerCl::default();
    do_evm_call_event(&mut listener);
    listener.runtime_event(step_exit(ExitReason::Succeed(ExitSucceed::Stopped), vec![1, 2]));
    assert_eq!(listener.entries[0].len(), 1);
    assert_eq!(call_parts(&listener.entries[0][&0]).3, CallResult::Output(vec![]));
    // There is no context left to end.
    do_exit_event(&mut listener);
    assert_eq!(listener.entries[0].len(), 1);
}

#[test]
fn call_results() {
    let cases = vec![
        (ExitReason::Succeed(ExitSucceed::Suicided), CallResult::Output(vec![])),
        (
            ExitReason::Error(ExitError::CallTooDeep),
            CallResult::Error(b"call too deep".to_vec()),
        ),
        (
            ExitReason::Revert(ExitRevert::Reverted),
            CallResult::Error(b"execution reverted".to_vec()),
        ),
        (ExitReason::Fatal(ExitFatal::NotSupported), CallResult::Error(vec![])),
    ];
    for (reason, expected) in cases {
        let mut listener = ListenerCl::default();
        do_evm_call_event(&mut listener);
        listener.evm_event(exit_event(reason, vec![1]));
        assert_eq!(call_parts(&listener.entries[0][&0]).3, expected);
    }
}

#[test]
fn create_results() {
    let cases = vec![
        (
            ExitReason::Error(ExitError::CreateCollision),
            CreateResult::Error { error: b"create collision".to_vec() },
        ),
        (
            ExitReason::Revert(ExitRevert::Reverted),
            CreateResult::Error { error: b"execution reverted".to_vec() },
        ),
        (
            ExitReason::Fatal(ExitFatal::UnhandledInterrupt),
            CreateResult::Error { error: vec![] },
        ),
    ];
    for (reason, expected) in cases {
        let mut listener = ListenerCl::default();
        do_evm_create_event(&mut listener);
        listener.evm_event(exit_event(reason, vec![1]));
        assert_eq!(
            listener.entries[0][&0].inner,
            CallInner::Create { init: vec![], res: expected }
        );
    }
}

#[test]
fn error_messages() {
    let cases: Vec<(ExitError, &str)> = vec![
        (ExitError::StackOverflow, "stack overflow"),
        (ExitError::StackUnderflow, "stack underflow"),
        (ExitError::InvalidJump, "invalid jump"),
        (ExitError::InvalidRange, "invalid range"),
        (ExitError::CreateContractLimit, "create contract limit"),
        (ExitError::OutOfFund, "out of funds"),
        (ExitError::DesignatedInvalid, "designated invalid"),
        (ExitError::CallTooDeep, "call too deep"),
        (ExitError::OutOfOffset, "out of offset"),
        (ExitError::OutOfGas, "out of gas"),
        (ExitError::CreateCollision, "create collision"),
        (ExitError::Other("caf\u{e9}".to_string()), "caf\u{e9}"),
        (ExitError::PCUnderflow, "unexpected error"),
        (ExitError::CreateEmpty, "unexpected error"),
        (ExitError::InvalidCode(0xef), "unexpected error"),
        (ExitError::MaxNonce, "unexpected error"),
    ];
    for (error, text) in cases {
        assert_eq!(error_message(&error), text.as_bytes().to_vec());
    }
}

#[test]
fn context_types() {
    let call = |call_type| Some(ContextType::Call(call_type));
    assert_eq!(ContextType::from(b"CALL".to_vec()), call(CallType::Call));
    assert_eq!(ContextType::from(b"CallCode".to_vec()), call(CallType::CallCode));
    assert_eq!(ContextType::from(b"DELEGATECALL".to_vec()), call(CallType::DelegateCall));
    assert_eq!(ContextType::from(b"staticcall".to_vec()), call(CallType::StaticCall));
    assert_eq!(ContextType::from(b"Create".to_vec()), Some(ContextType::Create));
    assert_eq!(ContextType::from(b"Create2".to_vec()), Some(ContextType::Create));
    assert_eq!(ContextType::from(b"SLOAD".to_vec()), None);
    assert_eq!(ContextType::from(b"".to_vec()), None);
    assert_eq!(ContextType::from(vec![0xff]), None);
}

const EARLY_EXIT: &[u8] =
    b"early exit (out of gas, stack overflow, direct call to precompile, ...)";

#[test]
fn cut_short_call() {
    let mut listener = ListenerCl::default();
    listener.gasometer_event(transaction_cost(7));
    listener.evm_event(call_event((9, 9), (1, 1), 3, vec![4], false));
    listener.gasometer_event(cost_event(100, 10, 0));
    listener.gasometer_event(cost_event(100, 40, 0));
    do_evm_call_event(&mut listener);
    do_evm_create_event(&mut listener);
    listener.finish_transaction();
    assert_eq!(listener.entries[0].len(), 1);
    assert_eq!(
        listener.entries[0][&0],
        Call {
            from: (9, 9),
            trace_address: vec![],
            subtraces: 1,
            value: number(3),
            gas: number(60),
            gas_used: number(37),
            inner: CallInner::Call {
                call_type: CallType::Call,
                to: (1, 1),
                input: vec![4],
                res: CallResult::Error(EARLY_EXIT.to_vec()),
            },
        }
    );
    // The keys of the other contexts are free again.
    do_evm_suicide_event(&mut listener);
    assert!(listener.entries[0].contains_key(&1));
    // Ending the transaction again changes nothing.
    listener.finish_transaction();
    assert_eq!(listener.entries[0].len(), 2);
}

#[test]
fn cut_short_create() {
    let mut listener = ListenerCl::default();
    do_transact_create_event(&mut listener);
    listener.finish_transaction();
    assert_eq!(
        listener.entries[0][&0].inner,
        CallInner::Create {
            init: vec![],
            res: CreateResult::Error { error: EARLY_EXIT.to_vec() },
        }
    );
}

#[test]
fn unpaid_transaction() {
    let mut listener = ListenerCl::default();
    do_gasometer_event(&mut listener);
    listener.finish_transaction();
    assert_eq!(
        listener.entries[0][&0],
        Call {
            from: (0, 0),
            trace_address: vec![],
            subtraces: 0,
            value: number(0),
            gas: number(0),
            gas_used: number(0),
            inner: CallInner::Call {
                call_type: CallType::Call,
                to: (0, 0),
                input: vec![],
                res: CallResult::Error(
                    b"transaction could not pay its own data cost (impossible to gather more info)"
                        .to_vec()
                ),
            },
        }
    );
}

#[test]
fn nothing_to_finish() {
    let mut listener = ListenerCl::default();
    listener.finish_transaction();
    assert_eq!(listener.entries.len(), 0);
}

#[test]
fn one_list_per_transaction() {
    let mut listener = ListenerCl::default();
    listener.event(Event::CallListNew());
    assert_eq!(listener.entries.len(), 0);
    listener.event(Event::Evm(test_emit_evm_event(TestEvmEvent::TransactCall, false, None)));
    listener.event(Event::Evm(test_emit_evm_event(
        TestEvmEvent::Exit,
        false,
        Some(ExitReason::Succeed(ExitSucceed::Stopped)),
    )));
    listener.event(Event::CallListNew());
    assert_eq!(listener.entries.len(), 2);
    // A context left open by the transaction before is not the parent of the next one.
    listener.event(Event::Evm(test_emit_evm_event(TestEvmEvent::TransactCall, false, None)));
    listener.event(Event::CallListNew());
    assert_eq!(listener.entries.len(), 3);
    assert_eq!(listener.entries[0].len(), 1);
    assert_eq!(listener.entries[1].len(), 1);
    assert!(listener.entries[1].contains_key(&1));
    assert_eq!(listener.entries[2].len(), 0);
    // The call is not skipped: its transaction was not announced.
    listener.event(Event::Evm(test_emit_evm_event(TestEvmEvent::Call, false, None)));
    listener.event(Event::Runtime(trap("CALL")));
    listener.event(Event::Gasometer(cost_event(10, 0, 0)));
    listener.finish_transaction();
    assert_eq!(listener.entries[2].len(), 1);
}

#[test]
fn gas_is_kept_from_first_and_last() {
    let mut listener = ListenerCl::default();
    do_transact_call_event(&mut listener);
    listener.evm_event(test_emit_evm_event(TestEvmEvent::Call, false, None));
    do_evm_call_event(&mut listener);
    listener.gasometer_event(GasometerEvent::RecordStipend {
        stipend: 1,
        snapshot: Snapshot { gas_limit: 50, memory_gas: 0, used_gas: 0, refunded_gas: 0 },
    });
    listener.gasometer_event(GasometerEvent::RecordDynamicCost {
        gas_cost: 1,
        memory_gas: 1,
        gas_refund: 0,
        snapshot: Snapshot { gas_limit: 50, memory_gas: 10, used_gas: 5, refunded_gas: 0 },
    });
    listener.gasometer_event(test_emit_gasometer_event(TestGasometerEvent::RecordRefund));
    do_exit_event(&mut listener);
    assert_eq!(listener.entries[0][&1].gas, number(35));
    assert_eq!(listener.entries[0][&1].gas_used, number(15));
}

#[test]
fn other_events_change_nothing() {
    let mut listener = ListenerCl::default();
    listener.runtime_event(test_emit_runtime_event(TestRuntimeEvent::SLoad));
    listener.runtime_event(test_emit_runtime_event(TestRuntimeEvent::SStore));
    listener.gasometer_event(test_emit_gasometer_event(TestGasometerEvent::RecordCost));
    listener.gasometer_event(test_emit_gasometer_event(TestGasometerEvent::RecordStipend));
    listener.gasometer_event(test_emit_gasometer_event(TestGasometerEvent::RecordDynamicCost));
    listener.evm_event(test_emit_evm_event(TestEvmEvent::TransactCreate2, false, None));
    assert_eq!(listener.entries.len(), 0);
}

#[test]
fn events_that_cannot_be_taken() {
    let mut listener = ListenerCl::default();
    // Without a context the gas does not matter.
    assert!(listener.can_take(&Event::Gasometer(cost_event(10, 20, 0))));
    do_evm_call_event(&mut listener);
    assert!(!listener.can_take(&Event::Gasometer(cost_event(10, 20, 0))));
    assert!(!listener.can_take(&Event::Gasometer(cost_event(10, 6, 5))));
    assert!(listener.can_take(&Event::Gasometer(cost_event(10, 6, 4))));
    // The gas left has grown since the context was opened.
    listener.gasometer_event(cost_event(10, 5, 0));
    listener.gasometer_event(cost_event(10, 2, 0));
    let exit = Event::Evm(exit_event(ExitReason::Error(ExitError::OutOfGas), vec![]));
    assert!(!listener.can_take(&exit));
    assert!(!listener.can_finish());
    assert!(!listener.can_take(&Event::Runtime(step_exit(
        ExitReason::Error(ExitError::OutOfGas),
        vec![],
    ))));
    assert!(listener.can_take(&Event::CallListNew()));
    listener.gasometer_event(cost_event(10, 5, 0));
    assert!(listener.can_take(&exit));
    assert!(listener.can_finish());
    // The gas used would not be a 64-bit number.
    listener.gasometer_event(cost_event(10, 6, 0));
    listener.gasometer_event(transaction_cost(u64::MAX));
    assert!(!listener.can_take(&exit));
}

#[test]
fn call_list_filter() {
    assert_eq!(
        ListenerCl::default().step_event_filter(),
        StepEventFilter { enable_memory: false, enable_stack: false }
    );
}

fn returned(value: Vec<u8>) -> RuntimeEvent {
    step_exit(ExitReason::Succeed(ExitSucceed::Returned), value)
}

#[test]
fn waiting_entry_is_added_at_the_end() {
    let mut listener = ListenerCl::default();
    do_transact_call_event(&mut listener);
    do_evm_call_event(&mut listener);
    listener.runtime_event(returned(vec![7]));
    assert_eq!(listener.entries.len(), 0);
    listener.finish_transaction();
    assert_eq!(listener.entries.len(), 1);
    assert_eq!(listener.entries[0].len(), 1);
    assert_eq!(call_parts(&listener.entries[0][&0]).3, CallResult::Output(vec![7]));
    // It is added once.
    listener.finish_transaction();
    do_exit_event(&mut listener);
    assert_eq!(listener.entries[0].len(), 1);
    assert_eq!(call_parts(&listener.entries[0][&0]).3, CallResult::Output(vec![7]));
}

#[test]
fn waiting_entry_is_added_whenever_the_cost_is_told() {
    let mut listener = ListenerCl::default();
    do_transact_call_event(&mut listener);
    do_evm_call_event(&mut listener);
    listener.gasometer_event(transaction_cost(5));
    listener.runtime_event(returned(vec![7]));
    listener.finish_transaction();
    assert_eq!(listener.entries.len(), 1);
    assert_eq!(listener.entries[0].len(), 1);
    assert_eq!(call_parts(&listener.entries[0][&0]).3, CallResult::Output(vec![7]));
    assert_eq!(listener.entries[0][&0].gas_used, number(5));
}

#[test]
fn waiting_entry_is_added_before_the_next_transaction() {
    let mut listener = ListenerCl::default();
    listener.event(Event::CallListNew());
    do_transact_call_event(&mut listener);
    do_evm_call_event(&mut listener);
    listener.runtime_event(returned(vec![7]));
    listener.event(Event::CallListNew());
    do_transact_call_event(&mut listener);
    do_evm_call_event(&mut listener);
    listener.runtime_event(returned(vec![8]));
    do_exit_event(&mut listener);
    listener.finish_transaction();
    assert_eq!(listener.entries.len(), 2);
    assert_eq!(listener.entries[0].len(), 1);
    assert_eq!(call_parts(&listener.entries[0][&0]).3, CallResult::Output(vec![7]));
    assert_eq!(listener.entries[1].len(), 1);
    assert_eq!(call_parts(&listener.entries[1][&1]).3, CallResult::Output(vec![8]));
}

#[test]
fn waiting_entry_of_a_call_that_was_cut_short() {
    let mut listener = ListenerCl::default();
    do_transact_call_event(&mut listener);
    do_evm_call_event(&mut listener);
    do_evm_call_event(&mut listener);
    listener.runtime_event(returned(vec![7]));
    listener.finish_transaction();
    assert_eq!(listener.entries.len(), 1);
    assert_eq!(listener.entries[0].len(), 2);
    assert_eq!(call_parts(&listener.entries[0][&0]).3, CallResult::Error(EARLY_EXIT.to_vec()));
    assert_eq!(call_parts(&listener.entries[0][&1]).3, CallResult::Output(vec![7]));
}

#[test]
fn cost_told_late_is_not_all_that_is_known() {
    let mut listener = ListenerCl::default();
    do_transact_call_event(&mut listener);
    do_exit_event(&mut listener);
    do_gasometer_event(&mut listener);
    listener.finish_transaction();
    assert_eq!(listener.entries[0].len(), 1);

    let mut listener = ListenerCl::default();
    do_transact_call_event(&mut listener);
    do_gasometer_event(&mut listener);
    do_exit_event(&mut listener);
    do_gasometer_event(&mut listener);
    listener.finish_transaction();
    assert_eq!(listener.entries[0].len(), 1);

    // Without a transaction that is announced.
    let mut listener = ListenerCl::default();
    do_evm_call_event(&mut listener);
    do_gasometer_event(&mut listener);
    listener.runtime_event(returned(vec![7]));
    listener.finish_transaction();
    assert_eq!(listener.entries[0].len(), 1);
    assert_eq!(call_parts(&listener.entries[0][&0]).3, CallResult::Output(vec![7]));
}

#[test]
fn cost_of_each_transaction_counts_for_itself() {
    let mut listener = ListenerCl::default();
    listener.event(Event::CallListNew());
    do_transact_call_event(&mut listener);
    do_exit_event(&mut listener);
    // Nothing but its cost is known of the second transaction.
    listener.event(Event::CallListNew());
    do_gasometer_event(&mut listener);
    // Nothing at all is known of the third one.
    listener.event(Event::CallListNew());
    listener.event(Event::CallListNew());
    do_transact_call_event(&mut listener);
    do_exit_event(&mut listener);
    listener.finish_transaction();
    assert_eq!(listener.entries.len(), 4);
    assert_eq!(listener.entries[0].len(), 1);
    assert_eq!(listener.entries[1].len(), 1);
    assert_eq!(
        call_parts(&listener.entries[1][&1]).3,
        CallResult::Error(
            b"transaction could not pay its own data cost (impossible to gather more info)".to_vec()
        )
    );
    assert_eq!(listener.entries[2].len(), 0);
    assert_eq!(listener.entries[3].len(), 1);
    assert!(listener.entries[3].contains_key(&2));
}

#[test]
fn announced_kind_is_forgotten_with_its_transaction() {
    let mut listener = ListenerCl::default();
    listener.event(Event::CallListNew());
    do_evm_call_event(&mut listener);
    listener.evm_event(EvmEvent::PrecompileSubcall {
        code_address: (0, 0),
        transfer: None,
        input: vec![],
        target_gas: None,
        is_static: false,
        context: test_context(),
    });
    do_evm_call_event(&mut listener);
    do_exit_event(&mut listener);
    do_exit_event(&mut listener);
    listener.event(Event::CallListNew());
    listener.evm_event(call_event((9, 9), (1, 0), 0, vec![], true));
    do_exit_event(&mut listener);
    assert_eq!(listener.entries[0].len(), 2);
    assert_eq!(call_parts(&listener.entries[1][&2]).0, CallType::StaticCall);
}

#[test]
fn tree_is_listed_in_walking_order() {
    let mut listener = ListenerCl::default();
    do_transact_call_event(&mut listener);
    do_evm_call_event(&mut listener);
    do_evm_call_event(&mut listener);
    do_evm_create_event(&mut listener);
    do_exit_event(&mut listener);
    do_evm_suicide_event(&mut listener);
    do_exit_event(&mut listener);
    do_evm_call_event(&mut listener);
    listener.runtime_event(returned(vec![]));
    do_exit_event(&mut listener);
    // The end of the root is not announced.
    listener.runtime_event(returned(vec![]));
    listener.finish_transaction();
    assert_eq!(listener.entries.len(), 1);
    let list = &listener.entries[0];
    let keys: Vec<u32> = list.keys().copied().collect();
    assert_eq!(keys, vec![0, 1, 2, 3, 4]);
    let paths: Vec<Vec<u32>> = list.values().map(|call| call.trace_address.clone()).collect();
    assert_eq!(paths, vec![vec![], vec![0], vec![0, 0], vec![0, 1], vec![1]]);
    let counts: Vec<u32> = list.values().map(|call| call.subtraces).collect();
    assert_eq!(counts, vec![2, 2, 0, 0, 0]);
}

#[test]
fn cost_alone_after_a_finished_transaction() {
    let mut listener = ListenerCl::default();
    do_transact_call_event(&mut listener);
    do_evm_call_event(&mut listener);
    listener.runtime_event(returned(vec![7]));
    do_exit_event(&mut listener);
    listener.finish_transaction();
    assert_eq!(listener.entries[0].len(), 1);
    // Nothing but its cost is known of the transaction that comes next.
    do_gasometer_event(&mut listener);
    listener.finish_transaction();
    assert_eq!(listener.entries.len(), 1);
    assert_eq!(listener.entries[0].len(), 2);
    assert_eq!(call_parts(&listener.entries[0][&0]).3, CallResult::Output(vec![7]));
    assert_eq!(
        call_parts(&listener.entries[0][&1]).3,
        CallResult::Error(
            b"transaction could not pay its own data cost (impossible to gather more info)".to_vec()
        )
    );
}

#[test]
fn later_waiting_entry_replaces_the_one_before() {
    let mut listener = ListenerCl::default();
    do_transact_call_event(&mut listener);
    do_evm_call_event(&mut listener);
    do_evm_call_event(&mut listener);
    listener.runtime_event(returned(vec![7]));
    listener.runtime_event(returned(vec![8]));
    listener.finish_transaction();
    assert_eq!(listener.entries[0].len(), 1);
    assert_eq!(call_parts(&listener.entries[0][&0]).3, CallResult::Output(vec![8]));
}
