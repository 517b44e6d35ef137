//! Plain values exchanged with the EVM.

use vstd::prelude::*;

verus! {

/// A 20-byte account address: its first 4 bytes and its last 16 bytes, each read as a
/// big-endian number. The order of such pairs is the order of the addresses' bytes.
pub type H160 = (u32, u128);

/// A 32-byte word: its two halves, each read as a big-endian number. The order of such pairs is
/// the order of the words' bytes.
pub type H256 = (u128, u128);

/// A 256-bit unsigned number, as four 64-bit digits, the least significant one first.
#[derive(Clone, Copy, Debug, PartialEq, Eq)]
pub struct U256(pub [u64; 4]);

impl View for U256 {
    type V = nat;

    /// The number itself.
    open spec fn view(&self) -> nat {
        (self.0[0] + self.0[1] * 0x1_0000_0000_0000_0000int
            + self.0[2] * 0x1_0000_0000_0000_0000_0000_0000_0000_0000int
            + self.0[3] * 0x1_0000_0000_0000_0000_0000_0000_0000_0000_0000_0000_0000_0000int) as nat
    }
}

impl U256 {
    /// The number zero.
    pub fn zero() -> (r: Self)
        ensures
            r@ == 0,
    {
        u256_from_u64(0)
    }
}

/// Calls `<ethereum_types::U256 as From<u64>>::from`, which stores the number in the least
/// significant digit and clears the others: the result is the same number.
#[verifier::external_body]
pub(crate) fn u256_from_u64(value: u64) -> (r: U256)
    ensures
        r@ == value,
{
    U256(ethereum_types::U256::from(value).0)
}

/// Calls `<ethereum_types::U256 as From<usize>>::from`: the result is the same number.
#[verifier::external_body]
pub(crate) fn u256_from_usize(value: usize) -> (r: U256)
    ensures
        r@ == value,
{
    U256(ethereum_types::U256::from(value).0)
}

/// Calls `ethereum_types::H160::repeat_byte`: each of the 20 bytes of the address is `byte`.
#[verifier::external_body]
pub(crate) fn h160_repeat_byte(byte: u8) -> (r: H160)
    ensures
        r.0 == byte * 0x0101_0101int,
        r.1 == byte * 0x0101_0101_0101_0101_0101_0101_0101_0101int,
{
    let b: [u8; 20] = ethereum_types::H160::repeat_byte(byte).0;
    (
        u32::from_be_bytes([b[0], b[1], b[2], b[3]]),
        u128::from_be_bytes([
            b[4], b[5], b[6], b[7], b[8], b[9], b[10], b[11], b[12], b[13], b[14], b[15], b[16],
            b[17], b[18], b[19],
        ]),
    )
}

/// What the gasometer has recorded at one moment.
#[derive(Clone, Copy, Debug, PartialEq, Eq)]
pub struct Snapshot {
    /// Gas available to the context.
    pub gas_limit: u64,
    /// Gas paid for memory.
    pub memory_gas: u64,
    /// Gas paid for everything else.
    pub used_gas: u64,
    /// Gas to refund at the end.
    pub refunded_gas: i64,
}

impl Snapshot {
    /// Whether no more gas was spent than was available.
    pub open spec fn solvent(self) -> bool {
        self.used_gas + self.memory_gas <= self.gas_limit
    }

    /// The gas left in a solvent snapshot.
    pub open spec fn gas_left(self) -> u64 {
        (self.gas_limit - self.used_gas - self.memory_gas) as u64
    }

    /// The gas left.
    ///
    /// Calls `evm_gasometer::Snapshot::gas`, which takes the gas used and the gas paid for
    /// memory from the gas limit; the call panics where that falls below zero.
    #[verifier::external_body]
    pub(crate) fn gas(&self) -> (r: u64)
        requires
            self.solvent(),
        ensures
            r == self.gas_left(),
    {
        evm_gasometer::Snapshot {
            gas_limit: self.gas_limit,
            memory_gas: self.memory_gas,
            used_gas: self.used_gas,
            refunded_gas: self.refunded_gas,
        }.gas()
    }

    /// Whether no more gas was spent than was available.
    pub fn is_solvent(&self) -> (r: bool)
        ensures
            r == self.solvent(),
    {
        self.used_gas <= self.gas_limit && self.memory_gas <= self.gas_limit - self.used_gas
    }
}

/// The context in which code runs.
#[derive(Clone, Copy, Debug, PartialEq, Eq)]
pub struct EvmContext {
    /// Account whose storage the code works on.
    pub address: H160,
    /// Account that made the call.
    pub caller: H160,
    /// Value that the code sees as transferred.
    pub apparent_value: U256,
}

/// A transfer of value from one account to another.
#[derive(Clone, Copy, Debug, PartialEq, Eq)]
pub struct Transfer {
    /// Account that pays.
    pub source: H160,
    /// Account that is paid.
    pub target: H160,
    /// Amount.
    pub value: U256,
}

/// How the address of a new contract is chosen.
#[derive(Clone, Copy, Debug, PartialEq, Eq)]
pub enum CreateScheme {
    /// As `CREATE` does.
    Legacy { caller: H160 },
    /// As `CREATE2` does.
    Create2 { caller: H160, code_hash: H256, salt: H256 },
    /// At a given address.
    Fixed(H160),
}

/// A copy of the memory of a running context.
#[derive(Debug, PartialEq, Eq)]
pub struct Memory {
    /// The bytes.
    pub data: Vec<u8>,
    /// Length after rounding up to whole words.
    pub effective_len: U256,
    /// Greatest length allowed.
    pub limit: u64,
}

/// A copy of the stack of a running context.
#[derive(Debug, PartialEq, Eq)]
pub struct Stack {
    /// The words, the top of the stack last.
    pub data: Vec<H256>,
    /// Greatest number of words allowed.
    pub limit: u64,
}

/// Why a step did not simply continue.
#[derive(Debug, PartialEq, Eq)]
pub enum Capture<E, T> {
    /// The machine has stopped for good.
    Exit(E),
    /// The machine waits for something outside itself.
    Trap(T),
}

/// Why a context has stopped.
#[derive(Debug, PartialEq, Eq)]
pub enum ExitReason {
    /// It has succeeded.
    Succeed(ExitSucceed),
    /// It has failed with an ordinary error.
    Error(ExitError),
    /// It has reverted its effects on purpose.
    Revert(ExitRevert),
    /// It has failed with an error that is not an ordinary one.
    Fatal(ExitFatal),
}

/// How a context has succeeded.
#[derive(Clone, Copy, Debug, PartialEq, Eq)]
pub enum ExitSucceed {
    /// By a stop.
    Stopped,
    /// By a return.
    Returned,
    /// By the destruction of its own account.
    Suicided,
}

/// How a context has reverted.
#[derive(Clone, Copy, Debug, PartialEq, Eq)]
pub enum ExitRevert {
    /// By a revert.
    Reverted,
}

/// Ordinary errors.
#[derive(Debug, PartialEq, Eq)]
pub enum ExitError {
    /// A word was taken from an empty stack.
    StackUnderflow,
    /// A word was put on a full stack.
    StackOverflow,
    /// The target of a jump is no valid one.
    InvalidJump,
    /// A region of memory is no valid one.
    InvalidRange,
    /// The opcode set aside as invalid was met.
    DesignatedInvalid,
    /// There are too many calls inside each other.
    CallTooDeep,
    /// The address of a new contract is taken.
    CreateCollision,
    /// The code of a new contract is too long.
    CreateContractLimit,
    /// The opcode, or the first byte of new code, is not allowed.
    InvalidCode(u8),
    /// Data outside the machine was addressed beyond its end.
    OutOfOffset,
    /// There is no gas left.
    OutOfGas,
    /// The funds do not suffice.
    OutOfFund,
    /// The program counter fell below zero.
    PCUnderflow,
    /// An empty account was to be created.
    CreateEmpty,
    /// Any other error.
    Other(String),
    /// The account's nonce cannot grow further.
    MaxNonce,
}

/// Errors that are not ordinary ones.
#[derive(Debug, PartialEq, Eq)]
pub enum ExitFatal {
    /// The operation is not supported.
    NotSupported,
    /// Nothing has handled a trap.
    UnhandledInterrupt,
    /// An ordinary error that the environment takes for a fatal one.
    CallErrorAsFatal(ExitError),
    /// Any other error.
    Other(String),
}

/// Four digits stand for the number that has them in base two to the power of 64.
pub proof fn u256_digits(number: U256)
    ensures
        number@ == number.0[0] + 0x1_0000_0000_0000_0000 * (number.0[1] + 0x1_0000_0000_0000_0000
            * (number.0[2] + 0x1_0000_0000_0000_0000 * number.0[3])),
{
}

/// The gas limit is what is left, what was paid for memory and what was paid for everything else,
/// unless more was spent than was available.
pub proof fn gas_adds_up(snapshot: Snapshot)
    ensures
        snapshot.solvent() <==> snapshot.used_gas + snapshot.memory_gas <= snapshot.gas_limit,
        snapshot.solvent() ==> snapshot.gas_left() + snapshot.memory_gas + snapshot.used_gas
            == snapshot.gas_limit,
{
}

} // verus!
