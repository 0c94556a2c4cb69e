//! The WebAssembly operators and types that the translator reads.

use crate::instruction::{BinaryIntOp, CompareIntOp};
use crate::primitive::{FloatType, IntType, Type};
use vstd::prelude::*;

verus! {

/// A value type of WebAssembly.
#[derive(Debug, Copy, Clone, PartialEq, Eq, Structural, Hash)]
pub enum WasmType {
    I32,
    I64,
    F32,
    F64,
}

impl WasmType {
    /// The type of the IR that stands for the value type.
    pub open spec fn ir_type(self) -> Type {
        match self {
            WasmType::I32 => Type::Int(IntType::I32),
            WasmType::I64 => Type::Int(IntType::I64),
            WasmType::F32 => Type::Float(FloatType::F32),
            WasmType::F64 => Type::Float(FloatType::F64),
        }
    }

    /// Returns the type of the IR that stands for the value type.
    pub fn into_type(self) -> (ty: Type)
        ensures
            ty == self.ir_type(),
    {
        match self {
            WasmType::I32 => Type::Int(IntType::I32),
            WasmType::I64 => Type::Int(IntType::I64),
            WasmType::F32 => Type::Float(FloatType::F32),
            WasmType::F64 => Type::Float(FloatType::F64),
        }
    }
}

impl From<WasmType> for Type {
    fn from(ty: WasmType) -> (ir: Type) {
        ty.into_type()
    }
}

impl vstd::std_specs::convert::FromSpecImpl<WasmType> for Type {
    open spec fn obeys_from_spec() -> bool {
        true
    }

    open spec fn from_spec(ty: WasmType) -> Type {
        ty.ir_type()
    }
}

/// The type of a structured control operator: what it leaves on the stack.
#[derive(Debug, Copy, Clone, PartialEq, Eq, Structural, Hash)]
pub enum BlockType {
    /// The operator leaves nothing on the stack.
    Empty,
    /// The operator leaves one value of the type on the stack.
    Value(WasmType),
}

/// A WebAssembly operator.
///
/// Every operator that the translator does not know is `Unsupported`.
#[derive(Debug, PartialEq, Eq, Hash)]
#[allow(inconsistent_fields)]
pub enum Operator {
    Unreachable,
    Nop,
    Block { ty: BlockType },
    Loop { ty: BlockType },
    If { ty: BlockType },
    Else,
    End,
    Br { relative_depth: u32 },
    BrIf { relative_depth: u32 },
    BrTable { targets: Vec<u32>, default: u32 },
    Return,
    Drop,
    Select,
    LocalGet { local_index: u32 },
    LocalSet { local_index: u32 },
    LocalTee { local_index: u32 },
    I32Const { value: i32 },
    I64Const { value: i64 },
    F32Const { bits: u32 },
    F64Const { bits: u64 },
    I32Eq,
    I32Ne,
    I32LtS,
    I32LtU,
    I32GtS,
    I32GtU,
    I32LeS,
    I32LeU,
    I32GeS,
    I32GeU,
    I64Eq,
    I64Ne,
    I64LtS,
    I64LtU,
    I64GtS,
    I64GtU,
    I64LeS,
    I64LeU,
    I64GeS,
    I64GeU,
    I32Add,
    I32Sub,
    I32Mul,
    I32DivS,
    I32DivU,
    I32RemS,
    I32RemU,
    I32And,
    I32Or,
    I32Xor,
    I64Add,
    I64Sub,
    I64Mul,
    I64DivS,
    I64DivU,
    I64RemS,
    I64RemU,
    I64And,
    I64Or,
    I64Xor,
    Unsupported,
}

impl Operator {
    /// The integer type and the operand code of a binary integer operator.
    pub open spec fn binary_int(self) -> Option<(IntType, BinaryIntOp)> {
        match self {
            Operator::I32Add => Some((IntType::I32, BinaryIntOp::Add)),
            Operator::I32Sub => Some((IntType::I32, BinaryIntOp::Sub)),
            Operator::I32Mul => Some((IntType::I32, BinaryIntOp::Mul)),
            Operator::I32DivS => Some((IntType::I32, BinaryIntOp::Sdiv)),
            Operator::I32DivU => Some((IntType::I32, BinaryIntOp::Udiv)),
            Operator::I32RemS => Some((IntType::I32, BinaryIntOp::Srem)),
            Operator::I32RemU => Some((IntType::I32, BinaryIntOp::Urem)),
            Operator::I32And => Some((IntType::I32, BinaryIntOp::And)),
            Operator::I32Or => Some((IntType::I32, BinaryIntOp::Or)),
            Operator::I32Xor => Some((IntType::I32, BinaryIntOp::Xor)),
            Operator::I64Add => Some((IntType::I64, BinaryIntOp::Add)),
            Operator::I64Sub => Some((IntType::I64, BinaryIntOp::Sub)),
            Operator::I64Mul => Some((IntType::I64, BinaryIntOp::Mul)),
            Operator::I64DivS => Some((IntType::I64, BinaryIntOp::Sdiv)),
            Operator::I64DivU => Some((IntType::I64, BinaryIntOp::Udiv)),
            Operator::I64RemS => Some((IntType::I64, BinaryIntOp::Srem)),
            Operator::I64RemU => Some((IntType::I64, BinaryIntOp::Urem)),
            Operator::I64And => Some((IntType::I64, BinaryIntOp::And)),
            Operator::I64Or => Some((IntType::I64, BinaryIntOp::Or)),
            Operator::I64Xor => Some((IntType::I64, BinaryIntOp::Xor)),
            _ => None,
        }
    }

    /// The integer type and the operand code of an integer comparison.
    pub open spec fn compare_int(self) -> Option<(IntType, CompareIntOp)> {
        match self {
            Operator::I32Eq => Some((IntType::I32, CompareIntOp::Eq)),
            Operator::I32Ne => Some((IntType::I32, CompareIntOp::Ne)),
            Operator::I32LtS => Some((IntType::I32, CompareIntOp::Slt)),
            Operator::I32LtU => Some((IntType::I32, CompareIntOp::Ult)),
            Operator::I32GtS => Some((IntType::I32, CompareIntOp::Sgt)),
            Operator::I32GtU => Some((IntType::I32, CompareIntOp::Ugt)),
            Operator::I32LeS => Some((IntType::I32, CompareIntOp::Sle)),
            Operator::I32LeU => Some((IntType::I32, CompareIntOp::Ule)),
            Operator::I32GeS => Some((IntType::I32, CompareIntOp::Sge)),
            Operator::I32GeU => Some((IntType::I32, CompareIntOp::Uge)),
            Operator::I64Eq => Some((IntType::I64, CompareIntOp::Eq)),
            Operator::I64Ne => Some((IntType::I64, CompareIntOp::Ne)),
            Operator::I64LtS => Some((IntType::I64, CompareIntOp::Slt)),
            Operator::I64LtU => Some((IntType::I64, CompareIntOp::Ult)),
            Operator::I64GtS => Some((IntType::I64, CompareIntOp::Sgt)),
            Operator::I64GtU => Some((IntType::I64, CompareIntOp::Ugt)),
            Operator::I64LeS => Some((IntType::I64, CompareIntOp::Sle)),
            Operator::I64LeU => Some((IntType::I64, CompareIntOp::Ule)),
            Operator::I64GeS => Some((IntType::I64, CompareIntOp::Sge)),
            Operator::I64GeU => Some((IntType::I64, CompareIntOp::Uge)),
            _ => None,
        }
    }

    /// Returns the integer type and the operand code, if the operator is a
    /// binary integer operator.
    pub fn as_binary_int(&self) -> (parts: Option<(IntType, BinaryIntOp)>)
        ensures
            parts == self.binary_int(),
    {
        match self {
            Operator::I32Add => Some((IntType::I32, BinaryIntOp::Add)),
            Operator::I32Sub => Some((IntType::I32, BinaryIntOp::Sub)),
            Operator::I32Mul => Some((IntType::I32, BinaryIntOp::Mul)),
            Operator::I32DivS => Some((IntType::I32, BinaryIntOp::Sdiv)),
            Operator::I32DivU => Some((IntType::I32, BinaryIntOp::Udiv)),
            Operator::I32RemS => Some((IntType::I32, BinaryIntOp::Srem)),
            Operator::I32RemU => Some((IntType::I32, BinaryIntOp::Urem)),
            Operator::I32And => Some((IntType::I32, BinaryIntOp::And)),
            Operator::I32Or => Some((IntType::I32, BinaryIntOp::Or)),
            Operator::I32Xor => Some((IntType::I32, BinaryIntOp::Xor)),
            Operator::I64Add => Some((IntType::I64, BinaryIntOp::Add)),
            Operator::I64Sub => Some((IntType::I64, BinaryIntOp::Sub)),
            Operator::I64Mul => Some((IntType::I64, BinaryIntOp::Mul)),
            Operator::I64DivS => Some((IntType::I64, BinaryIntOp::Sdiv)),
            Operator::I64DivU => Some((IntType::I64, BinaryIntOp::Udiv)),
            Operator::I64RemS => Some((IntType::I64, BinaryIntOp::Srem)),
            Operator::I64RemU => Some((IntType::I64, BinaryIntOp::Urem)),
            Operator::I64And => Some((IntType::I64, BinaryIntOp::And)),
            Operator::I64Or => Some((IntType::I64, BinaryIntOp::Or)),
            Operator::I64Xor => Some((IntType::I64, BinaryIntOp::Xor)),
            _ => None,
        }
    }

    /// Returns the integer type and the operand code, if the operator is an
    /// integer comparison.
    pub fn as_compare_int(&self) -> (parts: Option<(IntType, CompareIntOp)>)
        ensures
            parts == self.compare_int(),
    {
        match self {
            Operator::I32Eq => Some((IntType::I32, CompareIntOp::Eq)),
            Operator::I32Ne => Some((IntType::I32, CompareIntOp::Ne)),
            Operator::I32LtS => Some((IntType::I32, CompareIntOp::Slt)),
            Operator::I32LtU => Some((IntType::I32, CompareIntOp::Ult)),
            Operator::I32GtS => Some((IntType::I32, CompareIntOp::Sgt)),
            Operator::I32GtU => Some((IntType::I32, CompareIntOp::Ugt)),
            Operator::I32LeS => Some((IntType::I32, CompareIntOp::Sle)),
            Operator::I32LeU => Some((IntType::I32, CompareIntOp::Ule)),
            Operator::I32GeS => Some((IntType::I32, CompareIntOp::Sge)),
            Operator::I32GeU => Some((IntType::I32, CompareIntOp::Uge)),
            Operator::I64Eq => Some((IntType::I64, CompareIntOp::Eq)),
            Operator::I64Ne => Some((IntType::I64, CompareIntOp::Ne)),
            Operator::I64LtS => Some((IntType::I64, CompareIntOp::Slt)),
            Operator::I64LtU => Some((IntType::I64, CompareIntOp::Ult)),
            Operator::I64GtS => Some((IntType::I64, CompareIntOp::Sgt)),
            Operator::I64GtU => Some((IntType::I64, CompareIntOp::Ugt)),
            Operator::I64LeS => Some((IntType::I64, CompareIntOp::Sle)),
            Operator::I64LeU => Some((IntType::I64, CompareIntOp::Ule)),
            Operator::I64GeS => Some((IntType::I64, CompareIntOp::Sge)),
            Operator::I64GeU => Some((IntType::I64, CompareIntOp::Uge)),
            _ => None,
        }
    }
}

} // verus!
