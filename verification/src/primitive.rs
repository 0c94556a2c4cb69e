//! Primitive types, constant values and the typed handles of the IR.
//!
//! Unlike WebAssembly the IR knows 8-bit and 16-bit integer types, which
//! generalises compound operations such as loads that extend their result.

use crate::entity::index::Idx;
use vstd::prelude::*;

verus! {

/// A basic block entity of the IR.
#[derive(Debug, Default, Copy, Clone)]
pub struct BlockEntity;

/// An SSA value entity of the IR.
#[derive(Debug, Default, Copy, Clone)]
pub struct ValueEntity;

/// A function entity of the IR.
#[derive(Debug, Default, Copy, Clone)]
pub struct FuncEntity;

/// A function type entity of the IR.
#[derive(Debug, Default, Copy, Clone)]
pub struct FuncTypeEntity;

/// A linear memory entity of the IR.
#[derive(Debug, Default, Copy, Clone)]
pub struct MemEntity;

/// A table entity of the IR.
#[derive(Debug, Default, Copy, Clone)]
pub struct TableEntity;

/// A variable entity of the source language.
#[derive(Debug, Default, Copy, Clone)]
pub struct VariableEntity;

/// The unique index of a basic block entity of the IR.
pub type Block = Idx<BlockEntity>;

/// The unique index of a value entity of the IR.
pub type Value = Idx<ValueEntity>;

/// The unique index of a function entity of the IR.
pub type Func = Idx<FuncEntity>;

/// The unique index of a function type entity of the IR.
pub type FuncType = Idx<FuncTypeEntity>;

/// The unique index of a linear memory entity of the IR.
pub type Mem = Idx<MemEntity>;

/// The unique index of a table entity of the IR.
pub type Table = Idx<TableEntity>;

/// The unique index of a variable of the source language.
///
/// For WebAssembly these are the local variables of a function, which
/// `local.get`, `local.set` and `local.tee` operate on.
pub type Variable = Idx<VariableEntity>;

/// Any fixed-size integer type.
#[derive(Debug, Copy, Clone, PartialEq, Eq, Structural, PartialOrd, Ord, Hash)]
pub enum IntType {
    I8,
    I16,
    I32,
    I64,
}

impl IntType {
    /// The bit width of the integer type.
    pub open spec fn width(self) -> nat {
        match self {
            IntType::I8 => 8,
            IntType::I16 => 16,
            IntType::I32 => 32,
            IntType::I64 => 64,
        }
    }

    /// Returns the bit width of the fixed-size integer type.
    pub fn bit_width(&self) -> (width: u32)
        ensures
            width == self.width(),
    {
        match self {
            IntType::I8 => 8,
            IntType::I16 => 16,
            IntType::I32 => 32,
            IntType::I64 => 64,
        }
    }

    /// Returns the alignment exponent of the type: a value of the type is
    /// aligned to two to that power bytes.
    pub fn alignment(&self) -> (exponent: u8)
        ensures
            exponent == match *self {
                IntType::I8 => 0u8,
                IntType::I16 => 1u8,
                IntType::I32 => 2u8,
                IntType::I64 => 3u8,
            },
    {
        match self {
            IntType::I8 => 0,
            IntType::I16 => 1,
            IntType::I32 => 2,
            IntType::I64 => 3,
        }
    }
}

/// Any floating point number type.
#[derive(Debug, Copy, Clone, PartialEq, Eq, Structural, PartialOrd, Ord, Hash)]
pub enum FloatType {
    F32,
    F64,
}

impl FloatType {
    /// The bit width of the floating point number type.
    pub open spec fn width(self) -> nat {
        match self {
            FloatType::F32 => 32,
            FloatType::F64 => 64,
        }
    }

    /// Returns the bit width of the floating point number type.
    pub fn bit_width(&self) -> (width: u32)
        ensures
            width == self.width(),
    {
        match self {
            FloatType::F32 => 32,
            FloatType::F64 => 64,
        }
    }

    /// Returns the alignment exponent of the type.
    pub fn alignment(&self) -> (exponent: u8)
        ensures
            exponent == match *self {
                FloatType::F32 => 2u8,
                FloatType::F64 => 3u8,
            },
    {
        match self {
            FloatType::F32 => 2,
            FloatType::F64 => 3,
        }
    }
}

/// Any primitive type of the IR.
#[derive(Debug, Copy, Clone, PartialEq, Eq, Structural, PartialOrd, Ord, Hash)]
pub enum Type {
    Bool,
    Ptr,
    Int(IntType),
    Float(FloatType),
}

impl Type {
    /// The bit width of the type. Pointers are 32 bits wide.
    pub open spec fn width(self) -> nat {
        match self {
            Type::Bool => 1,
            Type::Ptr => 32,
            Type::Int(int_type) => int_type.width(),
            Type::Float(float_type) => float_type.width(),
        }
    }

    /// Returns the bit width of the type.
    pub fn bit_width(&self) -> (width: u32)
        ensures
            width == self.width(),
    {
        match self {
            Type::Bool => 1,
            Type::Ptr => 32,
            Type::Int(int_type) => int_type.bit_width(),
            Type::Float(float_type) => float_type.bit_width(),
        }
    }

    /// Returns the alignment exponent of the type.
    pub fn alignment(&self) -> (exponent: u8)
        ensures
            exponent == match *self {
                Type::Bool => 0u8,
                Type::Ptr => 2u8,
                Type::Int(IntType::I8) => 0u8,
                Type::Int(IntType::I16) => 1u8,
                Type::Int(IntType::I32) => 2u8,
                Type::Int(IntType::I64) => 3u8,
                Type::Float(FloatType::F32) => 2u8,
                Type::Float(FloatType::F64) => 3u8,
            },
    {
        match self {
            Type::Bool => 0,
            Type::Ptr => 2,
            Type::Int(int_type) => int_type.alignment(),
            Type::Float(float_type) => float_type.alignment(),
        }
    }
}

impl From<IntType> for Type {
    fn from(int_type: IntType) -> (ty: Type) {
        Type::Int(int_type)
    }
}

impl vstd::std_specs::convert::FromSpecImpl<IntType> for Type {
    open spec fn obeys_from_spec() -> bool {
        true
    }

    open spec fn from_spec(int_type: IntType) -> Type {
        Type::Int(int_type)
    }
}

impl From<FloatType> for Type {
    fn from(float_type: FloatType) -> (ty: Type) {
        Type::Float(float_type)
    }
}

impl vstd::std_specs::convert::FromSpecImpl<FloatType> for Type {
    open spec fn obeys_from_spec() -> bool {
        true
    }

    open spec fn from_spec(float_type: FloatType) -> Type {
        Type::Float(float_type)
    }
}

/// A 32-bit floating point number, stored by its bits.
#[derive(Debug, Copy, Clone, PartialEq, Eq, Structural, PartialOrd, Ord, Hash)]
pub struct F32 {
    /// The bit pattern of the number.
    pub bits: u32,
}

impl F32 {
    /// The bit pattern of the number.
    pub open spec fn spec_bits(self) -> u32 {
        self.bits
    }

    /// The number zero: all bits are zero.
    pub open spec fn zero() -> Self {
        F32 { bits: 0 }
    }

    /// Creates the number with the given bit pattern.
    pub fn from_bits(bits: u32) -> (float: Self)
        ensures
            float.spec_bits() == bits,
    {
        Self { bits }
    }

    /// Returns the bit pattern of the number.
    pub fn bits(self) -> (bits: u32)
        ensures
            bits == self.spec_bits(),
    {
        self.bits
    }
}

/// A 64-bit floating point number, stored by its bits.
#[derive(Debug, Copy, Clone, PartialEq, Eq, Structural, PartialOrd, Ord, Hash)]
pub struct F64 {
    /// The bit pattern of the number.
    pub bits: u64,
}

impl F64 {
    /// The bit pattern of the number.
    pub open spec fn spec_bits(self) -> u64 {
        self.bits
    }

    /// The number zero: all bits are zero.
    pub open spec fn zero() -> Self {
        F64 { bits: 0 }
    }

    /// Creates the number with the given bit pattern.
    pub fn from_bits(bits: u64) -> (float: Self)
        ensures
            float.spec_bits() == bits,
    {
        Self { bits }
    }

    /// Returns the bit pattern of the number.
    pub fn bits(self) -> (bits: u64)
        ensures
            bits == self.spec_bits(),
    {
        self.bits
    }
}

/// The unsigned number with the same bits as the signed value of the given
/// width in two's complement.
pub open spec fn twos_complement(value: int, width: nat) -> int {
    if value >= 0 {
        value
    } else {
        value + vstd::arithmetic::power2::pow2(width)
    }
}

/// A constant fixed-size integer value.
#[derive(Debug, Copy, Clone, PartialEq, Eq, Structural, PartialOrd, Ord, Hash)]
pub enum IntConst {
    I8(i8),
    I16(i16),
    I32(i32),
    I64(i64),
}

impl IntConst {
    /// The integer type of the constant.
    pub open spec fn int_type(self) -> IntType {
        match self {
            IntConst::I8(_) => IntType::I8,
            IntConst::I16(_) => IntType::I16,
            IntConst::I32(_) => IntType::I32,
            IntConst::I64(_) => IntType::I64,
        }
    }

    /// The number that the constant holds.
    pub open spec fn value(self) -> int {
        match self {
            IntConst::I8(value) => value as int,
            IntConst::I16(value) => value as int,
            IntConst::I32(value) => value as int,
            IntConst::I64(value) => value as int,
        }
    }

    /// Returns the type of the constant fixed-size integer.
    pub fn ty(&self) -> (ty: Type)
        ensures
            ty == Type::Int(self.int_type()),
    {
        match self {
            IntConst::I8(_) => Type::Int(IntType::I8),
            IntConst::I16(_) => Type::Int(IntType::I16),
            IntConst::I32(_) => Type::Int(IntType::I32),
            IntConst::I64(_) => Type::Int(IntType::I64),
        }
    }

    /// Returns the underlying 64-bits of the constant: its value in two's
    /// complement at its own width, extended with zeros.
    pub fn into_bits64(self) -> (bits: u64)
        ensures
            bits == twos_complement(self.value(), self.int_type().width()),
    {
        proof {
            vstd::arithmetic::power2::lemma2_to64();
            vstd::arithmetic::power2::lemma2_to64_rest();
        }
        match self {
            IntConst::I8(value) => {
                assert(value >= 0 ==> (value as u8) as i16 == value as i16) by (bit_vector);
                assert(value < 0 ==> (value as u8) as i16 == ((value as i16) + 256i16) as i16)
                    by (bit_vector);
                value as u8 as u64
            },
            IntConst::I16(value) => {
                assert(value >= 0 ==> (value as u16) as i32 == value as i32) by (bit_vector);
                assert(value < 0 ==> (value as u16) as i32 == ((value as i32) + 0x1_0000i32) as i32)
                    by (bit_vector);
                value as u16 as u64
            },
            IntConst::I32(value) => {
                assert(value >= 0 ==> (value as u32) as i64 == value as i64) by (bit_vector);
                assert(value < 0 ==> (value as u32) as i64 == ((value as i64)
                    + 0x1_0000_0000i64) as i64) by (bit_vector);
                value as u32 as u64
            },
            IntConst::I64(value) => {
                assert(value >= 0 ==> (value as u64) as i128 == value as i128) by (bit_vector);
                assert(value < 0 ==> (value as u64) as i128 == ((value as i128)
                    + 0x1_0000_0000_0000_0000i128) as i128) by (bit_vector);
                value as u64
            },
        }
    }
}

/// A constant floating point number value.
#[derive(Debug, Copy, Clone, PartialEq, Eq, Structural, PartialOrd, Ord, Hash)]
pub enum FloatConst {
    F32(F32),
    F64(F64),
}

impl FloatConst {
    /// The floating point number type of the constant.
    pub open spec fn float_type(self) -> FloatType {
        match self {
            FloatConst::F32(_) => FloatType::F32,
            FloatConst::F64(_) => FloatType::F64,
        }
    }

    /// Returns the type of the constant floating point number.
    pub fn ty(&self) -> (ty: Type)
        ensures
            ty == Type::Float(self.float_type()),
    {
        match self {
            FloatConst::F32(_) => Type::Float(FloatType::F32),
            FloatConst::F64(_) => Type::Float(FloatType::F64),
        }
    }

    /// Returns the underlying 64-bits of the constant: its bit pattern,
    /// extended with zeros.
    pub fn into_bits64(self) -> (bits: u64)
        ensures
            bits == match self {
                FloatConst::F32(value) => value.spec_bits() as u64,
                FloatConst::F64(value) => value.spec_bits(),
            },
    {
        match self {
            FloatConst::F32(value) => value.bits() as u64,
            FloatConst::F64(value) => value.bits(),
        }
    }
}

/// A constant value of the IR.
#[derive(Debug, Copy, Clone, PartialEq, Eq, Structural, PartialOrd, Ord, Hash)]
pub enum Const {
    Bool(bool),
    Ptr(u32),
    Int(IntConst),
    Float(FloatConst),
}

impl Const {
    /// The type of the constant.
    pub open spec fn type_of(self) -> Type {
        match self {
            Const::Bool(_) => Type::Bool,
            Const::Ptr(_) => Type::Ptr,
            Const::Int(int_const) => Type::Int(int_const.int_type()),
            Const::Float(float_const) => Type::Float(float_const.float_type()),
        }
    }

    /// The 64 bits that stand for the constant.
    pub open spec fn bits64(self) -> u64 {
        match self {
            Const::Bool(value) => if value {
                1u64
            } else {
                0u64
            },
            Const::Ptr(value) => value as u64,
            Const::Int(int_const) => twos_complement(
                int_const.value(),
                int_const.int_type().width(),
            ) as u64,
            Const::Float(FloatConst::F32(value)) => value.spec_bits() as u64,
            Const::Float(FloatConst::F64(value)) => value.spec_bits(),
        }
    }

    /// Returns the type of the constant value.
    pub fn ty(&self) -> (ty: Type)
        ensures
            ty == self.type_of(),
    {
        match self {
            Const::Bool(_) => Type::Bool,
            Const::Ptr(_) => Type::Ptr,
            Const::Int(int_const) => int_const.ty(),
            Const::Float(float_const) => float_const.ty(),
        }
    }

    /// Returns the underlying 64-bits of the constant.
    pub fn into_bits64(self) -> (bits: u64)
        ensures
            bits == self.bits64(),
    {
        match self {
            Const::Bool(value) => if value {
                1
            } else {
                0
            },
            Const::Ptr(value) => value as u64,
            Const::Int(int_const) => int_const.into_bits64(),
            Const::Float(float_const) => float_const.into_bits64(),
        }
    }
}

impl From<IntConst> for Const {
    fn from(int_const: IntConst) -> (constant: Const) {
        Const::Int(int_const)
    }
}

impl vstd::std_specs::convert::FromSpecImpl<IntConst> for Const {
    open spec fn obeys_from_spec() -> bool {
        true
    }

    open spec fn from_spec(int_const: IntConst) -> Const {
        Const::Int(int_const)
    }
}

impl From<FloatConst> for Const {
    fn from(float_const: FloatConst) -> (constant: Const) {
        Const::Float(float_const)
    }
}

impl vstd::std_specs::convert::FromSpecImpl<FloatConst> for Const {
    open spec fn obeys_from_spec() -> bool {
        true
    }

    open spec fn from_spec(float_const: FloatConst) -> Const {
        Const::Float(float_const)
    }
}

} // verus!
