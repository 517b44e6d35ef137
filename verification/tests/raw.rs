use evm_tracing::events::{Event, EvmEvent, GasometerEvent, RuntimeEvent, StepEventFilter};
use evm_tracing::raw::memory::convert_memory;
use evm_tracing::raw::ListenerRaw;
use evm_tracing::types::{
    Capture, EvmContext, ExitError, ExitReason, ExitRevert, ExitSucceed, Memory, Snapshot, Stack,
    H160, H256, U256,
};

fn snapshot(gas_limit: u64, used_gas: u64, memory_gas: u64) -> Snapshot {
    Snapshot { gas_limit, memory_gas, used_gas, refunded_gas: 0 }
}

fn transaction(listener: &mut ListenerRaw, cost: u64) {
    listener.event(Event::Gasometer(GasometerEvent::RecordTransaction {
        cost,
        snapshot: snapshot(0, 0, 0),
    }));
}

fn step(
    address: H160,
    opcode: &str,
    position: Result<u64, ExitReason>,
    stack: Option<Vec<H256>>,
    memory: Option<Vec<u8>>,
) -> RuntimeEvent {
    RuntimeEvent::Step {
        context: EvmContext { address, caller: (0, 0), apparent_value: U256::zero() },
        opcode: opcode.as_bytes().to_vec(),
        position,
        stack: stack.map(|data| Stack { data, limit: 1024 }),
        memory: memory.map(|data| Memory { data, effective_len: U256::zero(), limit: 1024 }),
    }
}

fn plain_step(listener: &mut ListenerRaw, address: H160) {
    listener.event(Event::Runtime(step(address, "ADD", Ok(0), None, None)));
}

fn result(listener: &mut ListenerRaw, result: Result<(), Capture<ExitReason, Vec<u8>>>, value: Vec<u8>) {
    listener.event(Event::Runtime(RuntimeEvent::StepResult { result, return_value: value }));
}

fn enter(listener: &mut ListenerRaw, address: H160) {
    result(listener, Err(Capture::Trap(b"CALL".to_vec())), vec![]);
    plain_step(listener, address);
}

fn store(listener: &mut ListenerRaw, index: H256, value: H256) {
    listener.event(Event::Runtime(RuntimeEvent::SStore { address: (7, 7), index, value }));
}

fn succeed(listener: &mut ListenerRaw) {
    result(listener, Err(Capture::Exit(ExitReason::Succeed(ExitSucceed::Stopped))), vec![]);
}

fn number(value: u64) -> U256 {
    U256([value, 0, 0, 0])
}

/// The storage of the last record.
fn last_storage(listener: &ListenerRaw) -> Vec<(H256, H256)> {
    let log = listener.struct_logs.last().unwrap();
    log.storage.as_ref().unwrap().iter().map(|(k, v)| (*k, *v)).collect()
}

#[test]
fn opcode_is_recorded() {
    let mut listener = ListenerRaw::new(false, false, false, 1000);
    transaction(&mut listener, 21_000);
    assert_eq!(listener.final_gas, 21_000);
    listener.event(Event::Runtime(step(
        (1, 1),
        "MSTORE",
        Ok(12),
        Some(vec![(0, 1), (2, 3)]),
        Some(vec![255; 33]),
    )));
    assert_eq!(listener.remaining_memory_usage, Some(1000 - 33 - 2));
    listener.event(Event::Gasometer(GasometerEvent::RecordDynamicCost {
        gas_cost: 6,
        memory_gas: 0,
        gas_refund: 0,
        snapshot: snapshot(100, 20, 5),
    }));
    store(&mut listener, (0, 9), (0, 10));
    assert_eq!(listener.struct_logs.len(), 0);
    result(&mut listener, Ok(()), vec![]);
    assert_eq!(listener.remaining_memory_usage, Some(1000 - 33 - 2 - 64));
    assert_eq!(listener.final_gas, 20);
    assert_eq!(listener.struct_logs.len(), 1);
    let log = &listener.struct_logs[0];
    assert_eq!(log.depth, number(1));
    assert_eq!(log.gas, number(75));
    assert_eq!(log.gas_cost, number(6));
    assert_eq!(log.op, b"MSTORE".to_vec());
    assert_eq!(log.pc, number(12));
    assert_eq!(log.stack, Some(vec![(0, 1), (2, 3)]));
    assert_eq!(log.memory, Some(vec![(u128::MAX, u128::MAX), (0, 255)]));
    assert_eq!(last_storage(&listener), vec![((0, 9), (0, 10))]);
    // The same result again records nothing.
    result(&mut listener, Ok(()), vec![]);
    assert_eq!(listener.struct_logs.len(), 1);
    assert_eq!(listener.remaining_memory_usage, Some(901));
    assert_eq!(listener.final_gas, 20);
}

#[test]
fn disabled_parts_are_not_recorded() {
    let mut listener = ListenerRaw::new(true, true, true, 0);
    transaction(&mut listener, 0);
    listener.event(Event::Runtime(step(
        (1, 1),
        "ADD",
        Err(ExitReason::Error(ExitError::InvalidJump)),
        None,
        None,
    )));
    store(&mut listener, (0, 1), (0, 1));
    result(&mut listener, Ok(()), vec![]);
    let log = &listener.struct_logs[0];
    assert_eq!(log.pc, number(0));
    assert_eq!(log.stack, None);
    assert_eq!(log.memory, None);
    assert_eq!(log.storage, None);
    assert_eq!(listener.remaining_memory_usage, Some(0));
}

#[test]
fn memory_exhausts_budget() {
    let mut listener = ListenerRaw::new(false, false, false, 10);
    transaction(&mut listener, 0);
    listener.event(Event::Runtime(step((1, 1), "ADD", Ok(0), Some(vec![]), Some(vec![0; 10]))));
    assert_eq!(listener.remaining_memory_usage, Some(0));
    result(&mut listener, Ok(()), vec![]);
    listener.event(Event::Runtime(step((1, 1), "ADD", Ok(0), None, Some(vec![0]))));
    assert_eq!(listener.remaining_memory_usage, None);
    // Nothing is taken in any more.
    transaction(&mut listener, 77);
    result(&mut listener, Err(Capture::Exit(ExitReason::Revert(ExitRevert::Reverted))), vec![1]);
    assert_eq!(listener.final_gas, 0);
    assert_eq!(listener.return_value, Vec::<u8>::new());
    assert_eq!(listener.struct_logs.len(), 1);
}

#[test]
fn stack_exhausts_budget() {
    let mut listener = ListenerRaw::new(true, true, false, 2);
    transaction(&mut listener, 0);
    listener.event(Event::Runtime(step((1, 1), "ADD", Ok(0), Some(vec![(0, 0); 3]), None)));
    assert_eq!(listener.remaining_memory_usage, None);
}

#[test]
fn storage_exhausts_budget() {
    let mut listener = ListenerRaw::new(false, true, true, 63);
    transaction(&mut listener, 0);
    plain_step(&mut listener, (1, 1));
    store(&mut listener, (0, 1), (0, 1));
    result(&mut listener, Ok(()), vec![]);
    assert_eq!(listener.remaining_memory_usage, None);
    assert_eq!(listener.struct_logs.len(), 0);
}

#[test]
fn contexts_and_return_value() {
    let mut listener = ListenerRaw::new(true, true, true, 0);
    // Outside of any context.
    plain_step(&mut listener, (1, 1));
    result(&mut listener, Ok(()), vec![]);
    assert_eq!(listener.struct_logs.len(), 0);
    transaction(&mut listener, 0);
    plain_step(&mut listener, (1, 1));
    enter(&mut listener, (2, 2));
    result(&mut listener, Err(Capture::Exit(ExitReason::Error(ExitError::OutOfGas))), vec![1]);
    assert_eq!(listener.return_value, Vec::<u8>::new());
    // A trap that opens no context.
    plain_step(&mut listener, (1, 1));
    result(&mut listener, Err(Capture::Trap(b"SLOAD".to_vec())), vec![]);
    plain_step(&mut listener, (1, 1));
    result(
        &mut listener,
        Err(Capture::Exit(ExitReason::Succeed(ExitSucceed::Returned))),
        vec![2],
    );
    assert_eq!(listener.return_value, vec![2]);
    let depths: Vec<U256> = listener.struct_logs.iter().map(|log| log.depth).collect();
    assert_eq!(depths, vec![number(1), number(2), number(1), number(1)]);
}

#[test]
fn costs_outside_of_opcodes() {
    let mut listener = ListenerRaw::new(true, true, true, 0);
    let cost = |used| {
        Event::Gasometer(GasometerEvent::RecordCost { cost: 1, snapshot: snapshot(100, used, 0) })
    };
    listener.event(cost(50));
    assert_eq!(listener.final_gas, 0);
    transaction(&mut listener, 5);
    plain_step(&mut listener, (1, 1));
    result(&mut listener, Ok(()), vec![]);
    listener.event(cost(60));
    assert_eq!(listener.final_gas, 60);
    assert_eq!(listener.struct_logs[0].gas, number(0));
    listener.event(Event::Gasometer(GasometerEvent::RecordStipend {
        stipend: 1,
        snapshot: snapshot(100, 70, 0),
    }));
    listener.event(Event::Gasometer(GasometerEvent::RecordRefund {
        refund: 1,
        snapshot: snapshot(100, 70, 0),
    }));
    listener.event(Event::CallListNew());
    listener.event(Event::Evm(EvmEvent::Suicide {
        address: (0, 0),
        target: (0, 0),
        balance: U256::zero(),
    }));
    assert_eq!(listener.final_gas, 60);
}

#[test]
fn callback_updates_known_slots() {
    let mut listener = ListenerRaw::new(false, true, true, 100_000);
    transaction(&mut listener, 0);
    plain_step(&mut listener, (1, 1));
    listener.event(Event::Runtime(RuntimeEvent::SLoad {
        address: (1, 1),
        index: (0, 1),
        value: (0, 10),
    }));
    enter(&mut listener, (2, 2));
    store(&mut listener, (0, 5), (0, 50));
    enter(&mut listener, (1, 1));
    store(&mut listener, (0, 1), (0, 11));
    store(&mut listener, (0, 2), (0, 22));
    succeed(&mut listener);
    // The slots of another account are not those of this one.
    plain_step(&mut listener, (2, 2));
    result(&mut listener, Ok(()), vec![]);
    assert_eq!(last_storage(&listener), vec![((0, 5), (0, 50))]);
    plain_step(&mut listener, (2, 2));
    succeed(&mut listener);
    // The slot that is known has its new value; the other is not known.
    plain_step(&mut listener, (1, 1));
    result(&mut listener, Ok(()), vec![]);
    assert_eq!(last_storage(&listener), vec![((0, 1), (0, 11))]);
}

#[test]
fn newer_changes_replace_older() {
    let mut listener = ListenerRaw::new(false, true, true, 100_000);
    transaction(&mut listener, 0);
    plain_step(&mut listener, (1, 1));
    store(&mut listener, (0, 1), (0, 1));
    store(&mut listener, (0, 2), (0, 2));
    enter(&mut listener, (2, 2));
    enter(&mut listener, (1, 1));
    store(&mut listener, (0, 1), (0, 10));
    store(&mut listener, (0, 2), (0, 20));
    succeed(&mut listener);
    plain_step(&mut listener, (2, 2));
    enter(&mut listener, (1, 1));
    store(&mut listener, (0, 2), (0, 200));
    succeed(&mut listener);
    plain_step(&mut listener, (2, 2));
    succeed(&mut listener);
    plain_step(&mut listener, (1, 1));
    result(&mut listener, Ok(()), vec![]);
    assert_eq!(last_storage(&listener), vec![((0, 1), (0, 10)), ((0, 2), (0, 200))]);
}

#[test]
fn reverted_context_leaves_nothing() {
    let mut listener = ListenerRaw::new(false, true, true, 100_000);
    transaction(&mut listener, 0);
    plain_step(&mut listener, (1, 1));
    store(&mut listener, (0, 1), (0, 1));
    enter(&mut listener, (1, 1));
    store(&mut listener, (0, 1), (0, 9));
    result(&mut listener, Err(Capture::Exit(ExitReason::Revert(ExitRevert::Reverted))), vec![]);
    plain_step(&mut listener, (1, 1));
    result(&mut listener, Ok(()), vec![]);
    assert_eq!(last_storage(&listener), vec![((0, 1), (0, 1))]);
}

#[test]
fn steps_that_cannot_be_taken() {
    let mut listener = ListenerRaw::new(false, false, false, 10);
    let bare = Event::Runtime(step((1, 1), "ADD", Ok(0), None, None));
    // Outside of any context nothing is needed.
    assert!(listener.can_take(&bare));
    transaction(&mut listener, 0);
    assert!(!listener.can_take(&bare));
    assert!(!listener.can_take(&Event::Runtime(step((1, 1), "ADD", Ok(0), None, Some(vec![])))));
    assert!(listener.can_take(&Event::Runtime(step(
        (1, 1),
        "ADD",
        Ok(0),
        None,
        Some(vec![0; 11])
    ))));
    listener.event(Event::Runtime(step((1, 1), "ADD", Ok(0), Some(vec![]), Some(vec![]))));
    let insolvent = Event::Gasometer(GasometerEvent::RecordCost {
        cost: 1,
        snapshot: snapshot(10, 11, 0),
    });
    assert!(!listener.can_take(&insolvent));
    result(&mut listener, Ok(()), vec![]);
    assert!(listener.can_take(&insolvent));
}

#[test]
fn raw_filter() {
    assert_eq!(
        ListenerRaw::new(false, true, false, 0).step_event_filter(),
        StepEventFilter { enable_memory: false, enable_stack: true }
    );
    assert_eq!(
        ListenerRaw::new(false, false, true, 0).step_event_filter(),
        StepEventFilter { enable_memory: true, enable_stack: false }
    );
}

#[test]
fn memory_as_words() {
    assert_eq!(convert_memory(vec![]), vec![]);
    assert_eq!(convert_memory(vec![1, 2]), vec![(0, 0x0102)]);
    let mut bytes: Vec<u8> = (0..32).collect();
    assert_eq!(
        convert_memory(bytes.to_vec()),
        vec![(
            0x0001_0203_0405_0607_0809_0a0b_0c0d_0e0f,
            0x1011_1213_1415_1617_1819_1a1b_1c1d_1e1f
        )]
    );
    bytes.extend(vec![9u8; 17]);
    assert_eq!(convert_memory(bytes)[1], (9, 0x0909_0909_0909_0909_0909_0909_0909_0909));
}
