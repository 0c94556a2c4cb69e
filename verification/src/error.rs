//! The errors that building and translating functions can end in.

use crate::primitive::{Block, Type, Value, Variable};
use vstd::prelude::*;

verus! {

/// The way in which a variable was accessed.
#[derive(Debug, Copy, Clone, PartialEq, Eq)]
pub enum VariableAccess {
    /// The variable was read.
    Read,
    /// The value was written to the variable.
    Write(Value),
}

/// Errors of the SSA function builder.
#[derive(Debug, Copy, Clone, PartialEq, Eq)]
pub enum FunctionBuilderError {
    /// A value was written to a variable that was declared with another type.
    UnmatchingVariableType { variable: Variable, value: Value, declared: Type, actual: Type },
    /// A variable was read or written that was never declared.
    MissingDeclarationForVariable { variable: Variable, access: VariableAccess },
    /// A variable was read where no write to it can have happened before.
    ReadBeforeWriteVariable { variable: Variable },
    /// More variables were declared than a function can hold.
    TooManyVariableDeclarations,
    /// A ϕ-instruction has no operand but itself: its block cannot be reached.
    UnreachablePhi { value: Value },
    /// A block that has no terminal instruction yet was made a predecessor.
    UnfilledPredecessor { block: Block, unfilled_pred: Block },
    /// A block that is sealed already was given another predecessor.
    PredecessorForSealedBlock { sealed_block: Block, new_pred: Block },
    /// A block branches to the same block twice.
    BranchAlreadyExists { from: Block, to: Block },
    /// An instruction was appended to a block that has its terminal instruction.
    BlockAlreadyFilled { block: Block },
    /// A block was sealed that is sealed already.
    BlockAlreadySealed { block: Block },
    /// A function was finalized with a block that was not sealed.
    BlockNotSealedAtFinalize { block: Block },
    /// A function was finalized with a block that has no terminal instruction.
    BlockNotFilledAtFinalize { block: Block },
    /// A function was finalized with a ϕ-instruction whose operands do not
    /// match the predecessors of its block.
    PhiOperandsNotMatchingPredecessors { block: Block },
}

/// Errors of translating WebAssembly operators.
#[derive(Debug, Copy, Clone, PartialEq, Eq)]
pub enum WasmError {
    /// The operator is not among those that can be translated.
    UnsupportedOperator,
    /// An operator needs more operands than the emulated stack holds.
    MissingStackValue { needed: u32, found: u32 },
    /// An operator was given an operand of another type than it expects.
    UnmatchingOperandType { value: Value, expected: Type, actual: Type },
    /// An operator refers to a local variable that the function does not have.
    MissingLocalVariable { local_index: u32 },
    /// An operator refers to a control frame that is not open.
    MissingControlFrame { relative_depth: u32 },
    /// An operator follows the end of the function body.
    OperatorAfterEnd,
    /// The function body ends before its last frame is closed.
    MissingEnd,
    /// The function has more blocks, values or instructions than handles
    /// can tell apart.
    FunctionTooLarge,
}

/// The error type of all operations on the IR.
#[derive(Debug, Copy, Clone, PartialEq, Eq)]
pub enum IrError {
    /// The function builder refused an operation.
    FunctionBuilder(FunctionBuilderError),
    /// The WebAssembly translator refused an operator.
    Wasm(WasmError),
}

impl From<FunctionBuilderError> for IrError {
    fn from(error: FunctionBuilderError) -> (wrapped: IrError) {
        IrError::FunctionBuilder(error)
    }
}

impl vstd::std_specs::convert::FromSpecImpl<FunctionBuilderError> for IrError {
    open spec fn obeys_from_spec() -> bool {
        true
    }

    open spec fn from_spec(error: FunctionBuilderError) -> IrError {
        IrError::FunctionBuilder(error)
    }
}

impl From<WasmError> for IrError {
    fn from(error: WasmError) -> (wrapped: IrError) {
        IrError::Wasm(error)
    }
}

impl vstd::std_specs::convert::FromSpecImpl<WasmError> for IrError {
    open spec fn obeys_from_spec() -> bool {
        true
    }

    open spec fn from_spec(error: WasmError) -> IrError {
        IrError::Wasm(error)
    }
}

} // verus!
