//! The entries of a call list.

use vstd::prelude::*;
use vstd::utf8::{encode_utf8, is_ascii_chars_encode_utf8};

use crate::types::{ExitError, ExitReason, ExitSucceed, H160, U256};

verus! {

/// Kinds of call.
#[derive(Clone, Copy, Debug, PartialEq, Eq, Structural)]
pub enum CallType {
    /// `CALL`.
    Call,
    /// `CALLCODE`.
    CallCode,
    /// `DELEGATECALL`.
    DelegateCall,
    /// `STATICCALL`.
    StaticCall,
}

/// What a context was opened for.
#[derive(Clone, Copy, Debug, PartialEq, Eq, Structural)]
pub enum ContextType {
    /// A call.
    Call(CallType),
    /// The creation of a contract.
    Create,
}

/// The upper-case form of an ASCII letter; any other byte is left as it is.
pub open spec fn ascii_upper(byte: u8) -> u8 {
    if 97 <= byte <= 122 {
        (byte - 32) as u8
    } else {
        byte
    }
}

/// Whether `opcode` is `name`, which is in upper case, up to the case of its ASCII letters.
pub open spec fn names(opcode: Seq<u8>, name: Seq<char>) -> bool {
    opcode.map_values(|b: u8| ascii_upper(b)) == encode_utf8(name)
}

/// The kind of context that the opcode of this name opens, if it opens one.
pub open spec fn context_type_of(opcode: Seq<u8>) -> Option<ContextType> {
    if names(opcode, "CREATE"@) || names(opcode, "CREATE2"@) {
        Some(ContextType::Create)
    } else if names(opcode, "CALL"@) {
        Some(ContextType::Call(CallType::Call))
    } else if names(opcode, "CALLCODE"@) {
        Some(ContextType::Call(CallType::CallCode))
    } else if names(opcode, "DELEGATECALL"@) {
        Some(ContextType::Call(CallType::DelegateCall))
    } else if names(opcode, "STATICCALL"@) {
        Some(ContextType::Call(CallType::StaticCall))
    } else {
        None
    }
}

/// Compares the name of an opcode with one in upper case.
fn has_name(opcode: &[u8], name: &str) -> (r: bool)
    ensures
        r == names(opcode@, name@),
{
    let upper: &[u8] = name.as_bytes();
    let ghost mapped = opcode@.map_values(|b: u8| ascii_upper(b));
    if opcode.len() != upper.len() {
        assert(mapped.len() != upper@.len());
        return false;
    }
    let mut i: usize = 0;
    while i < opcode.len()
        invariant
            i <= opcode@.len(),
            opcode@.len() == upper@.len(),
            upper@ == encode_utf8(name@),
            mapped == opcode@.map_values(|b: u8| ascii_upper(b)),
            forall|j: int| 0 <= j < i ==> mapped[j] == upper@[j],
        decreases opcode@.len() - i,
    {
        let byte: u8 = opcode[i];
        let raised: u8 = if 97 <= byte && byte <= 122 {
            byte - 32
        } else {
            byte
        };
        assert(mapped[i as int] == raised);
        if raised != upper[i] {
            return false;
        }
        i = i + 1;
    }
    assert(mapped =~= upper@);
    true
}

impl ContextType {
    /// The kind of context that the opcode of this name opens, if it opens one. The case of the
    /// letters does not matter.
    pub fn from(opcode: Vec<u8>) -> (r: Option<Self>)
        ensures
            r == context_type_of(opcode@),
    {
        let opcode: &[u8] = opcode.as_slice();
        if has_name(opcode, "CREATE") || has_name(opcode, "CREATE2") {
            Some(ContextType::Create)
        } else if has_name(opcode, "CALL") {
            Some(ContextType::Call(CallType::Call))
        } else if has_name(opcode, "CALLCODE") {
            Some(ContextType::Call(CallType::CallCode))
        } else if has_name(opcode, "DELEGATECALL") {
            Some(ContextType::Call(CallType::DelegateCall))
        } else if has_name(opcode, "STATICCALL") {
            Some(ContextType::Call(CallType::StaticCall))
        } else {
            None
        }
    }
}

/// How a call ended.
#[derive(Debug, PartialEq, Eq)]
pub enum CallResult {
    /// With this output.
    Output(Vec<u8>),
    /// With an error, whose message this is.
    Error(Vec<u8>),
}

/// How the creation of a contract ended.
#[derive(Debug, PartialEq, Eq)]
pub enum CreateResult {
    /// With an error, whose message this is.
    Error { error: Vec<u8> },
    /// With this code at this address.
    Success { created_contract_address_hash: H160, created_contract_code: Vec<u8> },
}

/// What an entry is about.
#[allow(inconsistent_fields)]
#[derive(Debug, PartialEq, Eq)]
pub enum CallInner {
    /// A call.
    Call { call_type: CallType, to: H160, input: Vec<u8>, res: CallResult },
    /// The creation of a contract.
    Create { init: Vec<u8>, res: CreateResult },
    /// The destruction of an account.
    SelfDestruct { to: H160, balance: U256 },
}

/// An entry of a call list.
#[derive(Debug, PartialEq, Eq)]
pub struct Call {
    /// Account that made the call.
    pub from: H160,
    /// Path from the root call to this one: at each level, the number of older siblings.
    pub trace_address: Vec<u32>,
    /// Number of entries directly below this one.
    pub subtraces: u32,
    /// Value transferred.
    pub value: U256,
    /// Gas left at the end.
    pub gas: U256,
    /// Gas used.
    pub gas_used: U256,
    /// What the entry is about.
    pub inner: CallInner,
}

/// [`CallResult`] as a mathematical value.
pub ghost enum CallResultView {
    Output(Seq<u8>),
    Error(Seq<u8>),
}

/// [`CreateResult`] as a mathematical value.
pub ghost enum CreateResultView {
    Error(Seq<u8>),
    Success { address: H160, code: Seq<u8> },
}

/// [`CallInner`] as a mathematical value.
#[allow(inconsistent_fields)]
pub ghost enum CallInnerView {
    Call { call_type: CallType, to: H160, input: Seq<u8>, res: CallResultView },
    Create { init: Seq<u8>, res: CreateResultView },
    SelfDestruct { to: H160, balance: nat },
}

/// [`Call`] as a mathematical value.
pub ghost struct CallView {
    pub from: H160,
    pub trace_address: Seq<u32>,
    pub subtraces: u32,
    pub value: nat,
    pub gas: nat,
    pub gas_used: nat,
    pub inner: CallInnerView,
}

impl View for CallResult {
    type V = CallResultView;

    open spec fn view(&self) -> CallResultView {
        match *self {
            CallResult::Output(bytes) => CallResultView::Output(bytes@),
            CallResult::Error(bytes) => CallResultView::Error(bytes@),
        }
    }
}

impl View for CreateResult {
    type V = CreateResultView;

    open spec fn view(&self) -> CreateResultView {
        match *self {
            CreateResult::Error { error } => CreateResultView::Error(error@),
            CreateResult::Success { created_contract_address_hash, created_contract_code } =>
                CreateResultView::Success {
                    address: created_contract_address_hash,
                    code: created_contract_code@,
                },
        }
    }
}

impl View for CallInner {
    type V = CallInnerView;

    open spec fn view(&self) -> CallInnerView {
        match *self {
            CallInner::Call { call_type, to, input, res } => CallInnerView::Call {
                call_type,
                to,
                input: input@,
                res: res@,
            },
            CallInner::Create { init, res } => CallInnerView::Create { init: init@, res: res@ },
            CallInner::SelfDestruct { to, balance } => CallInnerView::SelfDestruct {
                to,
                balance: balance@,
            },
        }
    }
}

impl View for Call {
    type V = CallView;

    open spec fn view(&self) -> CallView {
        CallView {
            from: self.from,
            trace_address: self.trace_address@,
            subtraces: self.subtraces,
            value: self.value@,
            gas: self.gas@,
            gas_used: self.gas_used@,
            inner: self.inner@,
        }
    }
}

/// The text of the message of an error.
pub open spec fn error_text(error: ExitError) -> Seq<char> {
    match error {
        ExitError::StackOverflow => "stack overflow"@,
        ExitError::StackUnderflow => "stack underflow"@,
        ExitError::InvalidJump => "invalid jump"@,
        ExitError::InvalidRange => "invalid range"@,
        ExitError::CreateContractLimit => "create contract limit"@,
        ExitError::OutOfFund => "out of funds"@,
        ExitError::DesignatedInvalid => "designated invalid"@,
        ExitError::CallTooDeep => "call too deep"@,
        ExitError::OutOfOffset => "out of offset"@,
        ExitError::OutOfGas => "out of gas"@,
        ExitError::CreateCollision => "create collision"@,
        ExitError::Other(text) => text@,
        _ => "unexpected error"@,
    }
}

/// The message of an error, in UTF-8.
pub fn error_message(error: &ExitError) -> (r: Vec<u8>)
    ensures
        r@ == encode_utf8(error_text(*error)),
{
    let text: &str = match error {
        ExitError::StackOverflow => "stack overflow",
        ExitError::StackUnderflow => "stack underflow",
        ExitError::InvalidJump => "invalid jump",
        ExitError::InvalidRange => "invalid range",
        ExitError::CreateContractLimit => "create contract limit",
        ExitError::OutOfFund => "out of funds",
        ExitError::DesignatedInvalid => "designated invalid",
        ExitError::CallTooDeep => "call too deep",
        ExitError::OutOfOffset => "out of offset",
        ExitError::OutOfGas => "out of gas",
        ExitError::CreateCollision => "create collision",
        ExitError::Other(text) => text.as_str(),
        _ => "unexpected error",
    };
    utf8_bytes(text)
}

/// The bytes of a text in UTF-8.
pub(crate) fn utf8_bytes(text: &str) -> (r: Vec<u8>)
    ensures
        r@ == encode_utf8(text@),
{
    vstd::slice::slice_to_vec(text.as_bytes())
}

/// How a call ends that exits for this reason: only a return has output.
pub open spec fn call_result_view(reason: ExitReason, return_value: Seq<u8>) -> CallResultView {
    match reason {
        ExitReason::Succeed(ExitSucceed::Returned) => CallResultView::Output(return_value),
        ExitReason::Succeed(_) => CallResultView::Output(Seq::empty()),
        ExitReason::Error(error) => CallResultView::Error(encode_utf8(error_text(error))),
        ExitReason::Revert(_) => CallResultView::Error(encode_utf8("execution reverted"@)),
        ExitReason::Fatal(_) => CallResultView::Error(Seq::empty()),
    }
}

/// How a creation ends that exits for this reason: any success leaves the returned code.
pub open spec fn create_result_view(
    reason: ExitReason,
    address: H160,
    return_value: Seq<u8>,
) -> CreateResultView {
    match reason {
        ExitReason::Succeed(_) => CreateResultView::Success { address, code: return_value },
        ExitReason::Error(error) => CreateResultView::Error(encode_utf8(error_text(error))),
        ExitReason::Revert(_) => CreateResultView::Error(encode_utf8("execution reverted"@)),
        ExitReason::Fatal(_) => CreateResultView::Error(Seq::empty()),
    }
}

/// How a call ends that exits for this reason.
pub fn call_result(reason: &ExitReason, return_value: Vec<u8>) -> (r: CallResult)
    ensures
        r@ == call_result_view(*reason, return_value@),
{
    match reason {
        ExitReason::Succeed(ExitSucceed::Returned) => CallResult::Output(return_value),
        ExitReason::Succeed(_) => CallResult::Output(Vec::new()),
        ExitReason::Error(error) => CallResult::Error(error_message(error)),
        ExitReason::Revert(_) => CallResult::Error(utf8_bytes("execution reverted")),
        ExitReason::Fatal(_) => CallResult::Error(Vec::new()),
    }
}

/// How a creation ends that exits for this reason.
pub fn create_result(reason: &ExitReason, address: H160, return_value: Vec<u8>) -> (r:
    CreateResult)
    ensures
        r@ == create_result_view(*reason, address, return_value@),
{
    match reason {
        ExitReason::Succeed(_) => CreateResult::Success {
            created_contract_address_hash: address,
            created_contract_code: return_value,
        },
        ExitReason::Error(error) => CreateResult::Error { error: error_message(error) },
        ExitReason::Revert(_) => CreateResult::Error { error: utf8_bytes("execution reverted") },
        ExitReason::Fatal(_) => CreateResult::Error { error: Vec::new() },
    }
}

/// The opcodes that open a context are the two that create a contract and the four that call one.
/// Each is known by its name, of which the case of the letters does not matter, and by nothing
/// else.
pub proof fn opcodes_that_open(opcode: Seq<u8>)
    ensures
        ({
            let name = opcode.map_values(
                |b: u8|
                    if 97 <= b <= 122 {
                        (b - 32) as u8
                    } else {
                        b
                    },
            );
            let create = seq![67u8, 82, 69, 65, 84, 69];
            let create2 = seq![67u8, 82, 69, 65, 84, 69, 50];
            let call = seq![67u8, 65, 76, 76];
            let call_code = seq![67u8, 65, 76, 76, 67, 79, 68, 69];
            let delegate_call = seq![68u8, 69, 76, 69, 71, 65, 84, 69, 67, 65, 76, 76];
            let static_call = seq![83u8, 84, 65, 84, 73, 67, 67, 65, 76, 76];
            let opened = context_type_of(opcode);
            &&& opened == Some(ContextType::Create) <==> name == create || name == create2
            &&& opened == Some(ContextType::Call(CallType::Call)) <==> name == call
            &&& opened == Some(ContextType::Call(CallType::CallCode)) <==> name == call_code
            &&& opened == Some(ContextType::Call(CallType::DelegateCall)) <==> name == delegate_call
            &&& opened == Some(ContextType::Call(CallType::StaticCall)) <==> name == static_call
        }),
{
    let name = opcode.map_values(
        |b: u8|
            if 97 <= b <= 122 {
                (b - 32) as u8
            } else {
                b
            },
    );
    assert(name =~= opcode.map_values(|b: u8| ascii_upper(b)));
    reveal_strlit("CREATE");
    reveal_strlit("CREATE2");
    reveal_strlit("CALL");
    reveal_strlit("CALLCODE");
    reveal_strlit("DELEGATECALL");
    reveal_strlit("STATICCALL");
    is_ascii_chars_encode_utf8("CREATE"@);
    is_ascii_chars_encode_utf8("CREATE2"@);
    is_ascii_chars_encode_utf8("CALL"@);
    is_ascii_chars_encode_utf8("CALLCODE"@);
    is_ascii_chars_encode_utf8("DELEGATECALL"@);
    is_ascii_chars_encode_utf8("STATICCALL"@);
    let create = seq![67u8, 82, 69, 65, 84, 69];
    let create2 = seq![67u8, 82, 69, 65, 84, 69, 50];
    let call = seq![67u8, 65, 76, 76];
    let call_code = seq![67u8, 65, 76, 76, 67, 79, 68, 69];
    let delegate_call = seq![68u8, 69, 76, 69, 71, 65, 84, 69, 67, 65, 76, 76];
    let static_call = seq![83u8, 84, 65, 84, 73, 67, 67, 65, 76, 76];
    assert(encode_utf8("CREATE"@) =~= create);
    assert(encode_utf8("CREATE2"@) =~= create2);
    assert(encode_utf8("CALL"@) =~= call);
    assert(encode_utf8("CALLCODE"@) =~= call_code);
    assert(encode_utf8("DELEGATECALL"@) =~= delegate_call);
    assert(encode_utf8("STATICCALL"@) =~= static_call);
    assert(create.len() == 6 && create2.len() == 7 && call.len() == 4 && call_code.len() == 8
        && delegate_call.len() == 12 && static_call.len() == 10);
}

/// Each error has its own message, an error with a text of its own has that text, and the rest
/// share one message.
pub proof fn messages_of_errors(error: ExitError)
    ensures
        error is StackOverflow ==> error_text(error) == "stack overflow"@,
        error is StackUnderflow ==> error_text(error) == "stack underflow"@,
        error is InvalidJump ==> error_text(error) == "invalid jump"@,
        error is InvalidRange ==> error_text(error) == "invalid range"@,
        error is CreateContractLimit ==> error_text(error) == "create contract limit"@,
        error is OutOfFund ==> error_text(error) == "out of funds"@,
        error is DesignatedInvalid ==> error_text(error) == "designated invalid"@,
        error is CallTooDeep ==> error_text(error) == "call too deep"@,
        error is OutOfOffset ==> error_text(error) == "out of offset"@,
        error is OutOfGas ==> error_text(error) == "out of gas"@,
        error is CreateCollision ==> error_text(error) == "create collision"@,
        error matches ExitError::Other(text) ==> error_text(error) == text@,
        error is InvalidCode || error is PCUnderflow || error is CreateEmpty || error is MaxNonce
            ==> error_text(error) == "unexpected error"@,
{
}

/// A call has the returned bytes for its output if it ends with a return, and no output if it
/// succeeds in another way. Every failure has a message: that of the error, one for a revert, and
/// an empty one for what is fatal.
pub proof fn call_outcome(reason: ExitReason, return_value: Seq<u8>)
    ensures
        ({
            let outcome = call_result_view(reason, return_value);
            &&& reason == ExitReason::Succeed(ExitSucceed::Returned) ==> outcome
                == CallResultView::Output(return_value)
            &&& reason == ExitReason::Succeed(ExitSucceed::Stopped) ==> outcome
                == CallResultView::Output(Seq::empty())
            &&& reason == ExitReason::Succeed(ExitSucceed::Suicided) ==> outcome
                == CallResultView::Output(Seq::empty())
            &&& reason matches ExitReason::Error(error) ==> outcome == CallResultView::Error(
                encode_utf8(error_text(error)),
            )
            &&& reason is Revert ==> outcome == CallResultView::Error(
                encode_utf8("execution reverted"@),
            )
            &&& reason is Fatal ==> outcome == CallResultView::Error(Seq::empty())
        }),
{
}

/// A creation that succeeds in any way, be it by a return, leaves the returned bytes as the code
/// of the created account. Every failure has the message that a call would have.
pub proof fn create_outcome(reason: ExitReason, address: H160, return_value: Seq<u8>)
    ensures
        ({
            let outcome = create_result_view(reason, address, return_value);
            &&& reason is Succeed ==> outcome == (CreateResultView::Success {
                address,
                code: return_value,
            })
            &&& reason matches ExitReason::Error(error) ==> outcome == CreateResultView::Error(
                encode_utf8(error_text(error)),
            )
            &&& reason is Revert ==> outcome == CreateResultView::Error(
                encode_utf8("execution reverted"@),
            )
            &&& reason is Fatal ==> outcome == CreateResultView::Error(Seq::empty())
        }),
{
}

/// What the contracts say of an entry is what its fields hold.
pub proof fn entry_fields(entry: Call)
    ensures
        entry@.from == entry.from,
        entry@.trace_address == entry.trace_address@,
        entry@.subtraces == entry.subtraces,
        entry@.value == entry.value@,
        entry@.gas == entry.gas@,
        entry@.gas_used == entry.gas_used@,
        entry.inner matches CallInner::Call { call_type, to, input, res } ==> entry@.inner == (
        CallInnerView::Call {
            call_type,
            to,
            input: input@,
            res: match res {
                CallResult::Output(bytes) => CallResultView::Output(bytes@),
                CallResult::Error(bytes) => CallResultView::Error(bytes@),
            },
        }),
        entry.inner matches CallInner::Create { init, res } ==> entry@.inner == (
        CallInnerView::Create {
            init: init@,
            res: match res {
                CreateResult::Error { error } => CreateResultView::Error(error@),
                CreateResult::Success { created_contract_address_hash, created_contract_code } =>
                    CreateResultView::Success {
                        address: created_contract_address_hash,
                        code: created_contract_code@,
                    },
            },
        }),
        entry.inner matches CallInner::SelfDestruct { to, balance } ==> entry@.inner == (
        CallInnerView::SelfDestruct { to, balance: balance@ }),
{
}

} // verus!
