//! Integer instructions.

use crate::instruction::visit::{replace_in, replace_operand};
use crate::primitive::{FloatType, IntType, Type, Value};
use vstd::prelude::*;

verus! {

/// Binary integer operand codes.
#[derive(Debug, Copy, Clone, PartialEq, Eq, Structural, PartialOrd, Ord, Hash)]
pub enum BinaryIntOp {
    /// Evaluates integer addition of two integer values.
    Add,
    /// Subtracts the right-hand side integer from the left-hand side integer.
    Sub,
    /// Evaluates integer multiplication of two integer values.
    Mul,
    /// Divides the left-hand side signed integer by the right-hand side signed integer.
    Sdiv,
    /// Divides the left-hand side unsigned integer by the right-hand side unsigned integer.
    Udiv,
    /// Computes the remainder of the signed division.
    Srem,
    /// Computes the remainder of the unsigned division.
    Urem,
    /// Computes the bit-wise and for two integer values.
    And,
    /// Computes the bit-wise or for two integer values.
    Or,
    /// Computes the bit-wise xor for two integer values.
    Xor,
}

/// The base of all binary integer instructions.
///
/// Both input values and the output value of the instruction have the
/// integer type `ty`.
#[derive(Debug, Copy, Clone, PartialEq, Eq)]
pub struct BinaryIntInstr {
    /// The operand code.
    pub op: BinaryIntOp,
    /// The integer type of the operands and of the result.
    pub ty: IntType,
    /// The left-hand side value.
    pub lhs: Value,
    /// The right-hand side value.
    pub rhs: Value,
}

impl BinaryIntInstr {
    /// Creates a new binary integer instruction.
    pub fn new(op: BinaryIntOp, ty: IntType, lhs: Value, rhs: Value) -> (instr: Self)
        ensures
            instr == (Self { op, ty, lhs, rhs }),
    {
        Self { op, ty, lhs, rhs }
    }

    /// Returns the binary operand of the instruction.
    pub fn op(&self) -> (op: BinaryIntOp)
        ensures
            op == self.op,
    {
        self.op
    }

    /// Returns the left-hand side value.
    pub fn lhs(&self) -> (lhs: Value)
        ensures
            lhs == self.lhs,
    {
        self.lhs
    }

    /// Returns the right-hand side value.
    pub fn rhs(&self) -> (rhs: Value)
        ensures
            rhs == self.rhs,
    {
        self.rhs
    }

    /// Returns the integer type of the instruction.
    pub fn ty(&self) -> (ty: IntType)
        ensures
            ty == self.ty,
    {
        self.ty
    }

    /// The type of the value that the instruction produces.
    pub open spec fn result_type(self) -> Type {
        Type::Int(self.ty)
    }

    /// Whether the instruction uses the value.
    pub open spec fn uses(self, value: Value) -> bool {
        self.lhs == value || self.rhs == value
    }

    /// Whether `self` is `before` with every use of `replace` turned into `with`.
    pub open spec fn replaces(self, before: Self, replace: Value, with: Value) -> bool {
        &&& self.op == before.op
        &&& self.ty == before.ty
        &&& self.lhs == replace_in(before.lhs, replace, with)
        &&& self.rhs == replace_in(before.rhs, replace, with)
    }

    /// Calls the visitor on the used values in order until it asks to stop.
    ///
    /// Returns `true` if the visitor asked to continue at every value.
    pub fn visit_values<F: Fn(Value) -> bool>(&self, visitor: &F) -> (completed: bool)
        requires
            forall|value: Value| self.uses(value) ==> #[trigger] visitor.requires((value,)),
        ensures
            completed ==> forall|value: Value|
                self.uses(value) ==> #[trigger] visitor.ensures((value,), true),
            !completed ==> exists|value: Value|
                self.uses(value) && #[trigger] visitor.ensures((value,), false),
    {
        assert(self.uses(self.lhs));
        assert(self.uses(self.rhs));
        visitor(self.lhs) && visitor(self.rhs)
    }

    /// Replaces every use of `replace` by `with`.
    ///
    /// Returns `true` if a value has been replaced in the instruction.
    pub fn replace_value(&mut self, replace: Value, with: Value) -> (replaced: bool)
        ensures
            final(self).replaces(*old(self), replace, with),
            replaced == old(self).uses(replace),
    {
        let in_lhs = replace_operand(&mut self.lhs, replace, with);
        let in_rhs = replace_operand(&mut self.rhs, replace, with);
        in_lhs || in_rhs
    }
}

/// Unary integer operand codes.
#[derive(Debug, Copy, Clone, PartialEq, Eq, Structural, PartialOrd, Ord, Hash)]
pub enum UnaryIntOp {
    /// Counts the leading zero bits.
    LeadingZeros,
    /// Counts the trailing zero bits.
    TrailingZeros,
    /// Counts the bits that are set.
    PopCount,
}

/// The base of all unary integer instructions.
///
/// The input value and the output value have the integer type `int_type`.
#[derive(Debug, Copy, Clone, PartialEq, Eq)]
pub struct UnaryIntInstr {
    /// The operand code.
    pub op: UnaryIntOp,
    /// The integer type of the operand and of the result.
    pub int_type: IntType,
    /// The value that is operated on.
    pub src: Value,
}

impl UnaryIntInstr {
    /// Creates the instruction from its parts.
    pub fn new(op: UnaryIntOp, int_type: IntType, src: Value) -> (instr: Self)
        ensures
            instr == (Self { op, int_type, src }),
    {
        Self { op, int_type, src }
    }

    /// Whether the instruction uses the value.
    pub open spec fn uses(self, value: Value) -> bool {
        self.src == value
    }

    /// Whether `self` is `before` with every use of `replace` turned into `with`.
    pub open spec fn replaces(self, before: Self, replace: Value, with: Value) -> bool {
        &&& self.op == before.op
        &&& self.int_type == before.int_type
        &&& self.src == replace_in(before.src, replace, with)
    }

    /// Calls the visitor on the used values in order until it asks to stop.
    ///
    /// Returns `true` if the visitor asked to continue at every value.
    pub fn visit_values<F: Fn(Value) -> bool>(&self, visitor: &F) -> (completed: bool)
        requires
            forall|value: Value| self.uses(value) ==> #[trigger] visitor.requires((value,)),
        ensures
            completed ==> forall|value: Value|
                self.uses(value) ==> #[trigger] visitor.ensures((value,), true),
            !completed ==> exists|value: Value|
                self.uses(value) && #[trigger] visitor.ensures((value,), false),
    {
        assert(self.uses(self.src));
        visitor(self.src)
    }

    /// Replaces every use of `replace` by `with`.
    ///
    /// Returns `true` if a value has been replaced in the instruction.
    pub fn replace_value(&mut self, replace: Value, with: Value) -> (replaced: bool)
        ensures
            final(self).replaces(*old(self), replace, with),
            replaced == old(self).uses(replace),
    {
        let in_src = replace_operand(&mut self.src, replace, with);
        in_src
    }

    /// The type of the value that the instruction produces.
    pub open spec fn result_type(self) -> Type {
        Type::Int(self.int_type)
    }

    /// Returns the type of the value that the instruction produces.
    pub fn ty(&self) -> (ty: Type)
        ensures
            ty == self.result_type(),
    {
        Type::Int(self.int_type)
    }
}

/// Integer comparison operand codes.
#[derive(Debug, Copy, Clone, PartialEq, Eq, Structural, PartialOrd, Ord, Hash)]
pub enum CompareIntOp {
    /// Equality.
    Eq,
    /// Inequality.
    Ne,
    /// Signed less-than.
    Slt,
    /// Signed less-equals.
    Sle,
    /// Signed greater-than.
    Sgt,
    /// Signed greater-equals.
    Sge,
    /// Unsigned less-than.
    Ult,
    /// Unsigned less-equals.
    Ule,
    /// Unsigned greater-than.
    Ugt,
    /// Unsigned greater-equals.
    Uge,
}

/// Compares two integers of the same type.
///
/// The signed comparisons read the bits of their operands in two's complement.
/// The result is a `Bool`.
#[derive(Debug, Copy, Clone, PartialEq, Eq)]
pub struct CompareIntInstr {
    /// The operand code.
    pub op: CompareIntOp,
    /// The integer type of both operands.
    pub int_type: IntType,
    /// The left-hand side value.
    pub lhs: Value,
    /// The right-hand side value.
    pub rhs: Value,
}

impl CompareIntInstr {
    /// Creates the instruction from its parts.
    pub fn new(op: CompareIntOp, int_type: IntType, lhs: Value, rhs: Value) -> (instr: Self)
        ensures
            instr == (Self { op, int_type, lhs, rhs }),
    {
        Self { op, int_type, lhs, rhs }
    }

    /// Whether the instruction uses the value.
    pub open spec fn uses(self, value: Value) -> bool {
        self.lhs == value || self.rhs == value
    }

    /// Whether `self` is `before` with every use of `replace` turned into `with`.
    pub open spec fn replaces(self, before: Self, replace: Value, with: Value) -> bool {
        &&& self.op == before.op
        &&& self.int_type == before.int_type
        &&& self.lhs == replace_in(before.lhs, replace, with)
        &&& self.rhs == replace_in(before.rhs, replace, with)
    }

    /// Calls the visitor on the used values in order until it asks to stop.
    ///
    /// Returns `true` if the visitor asked to continue at every value.
    pub fn visit_values<F: Fn(Value) -> bool>(&self, visitor: &F) -> (completed: bool)
        requires
            forall|value: Value| self.uses(value) ==> #[trigger] visitor.requires((value,)),
        ensures
            completed ==> forall|value: Value|
                self.uses(value) ==> #[trigger] visitor.ensures((value,), true),
            !completed ==> exists|value: Value|
                self.uses(value) && #[trigger] visitor.ensures((value,), false),
    {
        assert(self.uses(self.lhs));
        assert(self.uses(self.rhs));
        visitor(self.lhs) && visitor(self.rhs)
    }

    /// Replaces every use of `replace` by `with`.
    ///
    /// Returns `true` if a value has been replaced in the instruction.
    pub fn replace_value(&mut self, replace: Value, with: Value) -> (replaced: bool)
        ensures
            final(self).replaces(*old(self), replace, with),
            replaced == old(self).uses(replace),
    {
        let in_lhs = replace_operand(&mut self.lhs, replace, with);
        let in_rhs = replace_operand(&mut self.rhs, replace, with);
        in_lhs || in_rhs
    }

    /// The type of the value that the instruction produces.
    pub open spec fn result_type(self) -> Type {
        Type::Bool
    }

    /// Returns the type of the value that the instruction produces.
    pub fn ty(&self) -> (ty: Type)
        ensures
            ty == self.result_type(),
    {
        Type::Bool
    }
}

/// Extends an integer to a wider integer type, with its sign or with zeros.
#[derive(Debug, Copy, Clone, PartialEq, Eq)]
pub struct ExtendIntInstr {
    /// Whether the sign of the source is kept.
    pub signed: bool,
    /// The integer type of the source.
    pub src_type: IntType,
    /// The integer type of the result.
    pub dst_type: IntType,
    /// The value that is extended.
    pub src: Value,
}

impl ExtendIntInstr {
    /// Creates the instruction from its parts.
    pub fn new(signed: bool, src_type: IntType, dst_type: IntType, src: Value) -> (instr: Self)
        ensures
            instr == (Self { signed, src_type, dst_type, src }),
    {
        Self { signed, src_type, dst_type, src }
    }

    /// Whether the instruction uses the value.
    pub open spec fn uses(self, value: Value) -> bool {
        self.src == value
    }

    /// Whether `self` is `before` with every use of `replace` turned into `with`.
    pub open spec fn replaces(self, before: Self, replace: Value, with: Value) -> bool {
        &&& self.signed == before.signed
        &&& self.src_type == before.src_type
        &&& self.dst_type == before.dst_type
        &&& self.src == replace_in(before.src, replace, with)
    }

    /// Calls the visitor on the used values in order until it asks to stop.
    ///
    /// Returns `true` if the visitor asked to continue at every value.
    pub fn visit_values<F: Fn(Value) -> bool>(&self, visitor: &F) -> (completed: bool)
        requires
            forall|value: Value| self.uses(value) ==> #[trigger] visitor.requires((value,)),
        ensures
            completed ==> forall|value: Value|
                self.uses(value) ==> #[trigger] visitor.ensures((value,), true),
            !completed ==> exists|value: Value|
                self.uses(value) && #[trigger] visitor.ensures((value,), false),
    {
        assert(self.uses(self.src));
        visitor(self.src)
    }

    /// Replaces every use of `replace` by `with`.
    ///
    /// Returns `true` if a value has been replaced in the instruction.
    pub fn replace_value(&mut self, replace: Value, with: Value) -> (replaced: bool)
        ensures
            final(self).replaces(*old(self), replace, with),
            replaced == old(self).uses(replace),
    {
        let in_src = replace_operand(&mut self.src, replace, with);
        in_src
    }

    /// The type of the value that the instruction produces.
    pub open spec fn result_type(self) -> Type {
        Type::Int(self.dst_type)
    }

    /// Returns the type of the value that the instruction produces.
    pub fn ty(&self) -> (ty: Type)
        ensures
            ty == self.result_type(),
    {
        Type::Int(self.dst_type)
    }
}

/// Truncates an integer to a narrower integer type.
#[derive(Debug, Copy, Clone, PartialEq, Eq)]
pub struct TruncateIntInstr {
    /// The integer type of the source.
    pub src_type: IntType,
    /// The integer type of the result.
    pub dst_type: IntType,
    /// The value that is truncated.
    pub src: Value,
}

impl TruncateIntInstr {
    /// Creates the instruction from its parts.
    pub fn new(src_type: IntType, dst_type: IntType, src: Value) -> (instr: Self)
        ensures
            instr == (Self { src_type, dst_type, src }),
    {
        Self { src_type, dst_type, src }
    }

    /// Whether the instruction uses the value.
    pub open spec fn uses(self, value: Value) -> bool {
        self.src == value
    }

    /// Whether `self` is `before` with every use of `replace` turned into `with`.
    pub open spec fn replaces(self, before: Self, replace: Value, with: Value) -> bool {
        &&& self.src_type == before.src_type
        &&& self.dst_type == before.dst_type
        &&& self.src == replace_in(before.src, replace, with)
    }

    /// Calls the visitor on the used values in order until it asks to stop.
    ///
    /// Returns `true` if the visitor asked to continue at every value.
    pub fn visit_values<F: Fn(Value) -> bool>(&self, visitor: &F) -> (completed: bool)
        requires
            forall|value: Value| self.uses(value) ==> #[trigger] visitor.requires((value,)),
        ensures
            completed ==> forall|value: Value|
                self.uses(value) ==> #[trigger] visitor.ensures((value,), true),
            !completed ==> exists|value: Value|
                self.uses(value) && #[trigger] visitor.ensures((value,), false),
    {
        assert(self.uses(self.src));
        visitor(self.src)
    }

    /// Replaces every use of `replace` by `with`.
    ///
    /// Returns `true` if a value has been replaced in the instruction.
    pub fn replace_value(&mut self, replace: Value, with: Value) -> (replaced: bool)
        ensures
            final(self).replaces(*old(self), replace, with),
            replaced == old(self).uses(replace),
    {
        let in_src = replace_operand(&mut self.src, replace, with);
        in_src
    }

    /// The type of the value that the instruction produces.
    pub open spec fn result_type(self) -> Type {
        Type::Int(self.dst_type)
    }

    /// Returns the type of the value that the instruction produces.
    pub fn ty(&self) -> (ty: Type)
        ensures
            ty == self.result_type(),
    {
        Type::Int(self.dst_type)
    }
}

/// Converts an integer, read as signed or unsigned, to a floating point number.
#[derive(Debug, Copy, Clone, PartialEq, Eq)]
pub struct IntToFloatInstr {
    /// Whether the source is read as a signed integer.
    pub signed: bool,
    /// The integer type of the source.
    pub src_type: IntType,
    /// The floating point number type of the result.
    pub dst_type: FloatType,
    /// The value that is converted.
    pub src: Value,
}

impl IntToFloatInstr {
    /// Creates the instruction from its parts.
    pub fn new(signed: bool, src_type: IntType, dst_type: FloatType, src: Value) -> (instr: Self)
        ensures
            instr == (Self { signed, src_type, dst_type, src }),
    {
        Self { signed, src_type, dst_type, src }
    }

    /// Whether the instruction uses the value.
    pub open spec fn uses(self, value: Value) -> bool {
        self.src == value
    }

    /// Whether `self` is `before` with every use of `replace` turned into `with`.
    pub open spec fn replaces(self, before: Self, replace: Value, with: Value) -> bool {
        &&& self.signed == before.signed
        &&& self.src_type == before.src_type
        &&& self.dst_type == before.dst_type
        &&& self.src == replace_in(before.src, replace, with)
    }

    /// Calls the visitor on the used values in order until it asks to stop.
    ///
    /// Returns `true` if the visitor asked to continue at every value.
    pub fn visit_values<F: Fn(Value) -> bool>(&self, visitor: &F) -> (completed: bool)
        requires
            forall|value: Value| self.uses(value) ==> #[trigger] visitor.requires((value,)),
        ensures
            completed ==> forall|value: Value|
                self.uses(value) ==> #[trigger] visitor.ensures((value,), true),
            !completed ==> exists|value: Value|
                self.uses(value) && #[trigger] visitor.ensures((value,), false),
    {
        assert(self.uses(self.src));
        visitor(self.src)
    }

    /// Replaces every use of `replace` by `with`.
    ///
    /// Returns `true` if a value has been replaced in the instruction.
    pub fn replace_value(&mut self, replace: Value, with: Value) -> (replaced: bool)
        ensures
            final(self).replaces(*old(self), replace, with),
            replaced == old(self).uses(replace),
    {
        let in_src = replace_operand(&mut self.src, replace, with);
        in_src
    }

    /// The type of the value that the instruction produces.
    pub open spec fn result_type(self) -> Type {
        Type::Float(self.dst_type)
    }

    /// Returns the type of the value that the instruction produces.
    pub fn ty(&self) -> (ty: Type)
        ensures
            ty == self.result_type(),
    {
        Type::Float(self.dst_type)
    }
}

/// Any integer instruction.
#[derive(Debug, Copy, Clone, PartialEq, Eq)]
pub enum IntInstr {
    /// A binary integer instruction.
    Binary(BinaryIntInstr),
    /// A unary integer instruction.
    Unary(UnaryIntInstr),
    /// An integer comparison.
    Compare(CompareIntInstr),
    /// An integer extension.
    Extend(ExtendIntInstr),
    /// A conversion from integer to floating point number.
    IntToFloat(IntToFloatInstr),
    /// An integer truncation.
    Truncate(TruncateIntInstr),
}

impl IntInstr {
    /// Whether the instruction uses the value.
    pub open spec fn uses(self, value: Value) -> bool {
        match self {
            IntInstr::Binary(instr) => instr.uses(value),
            IntInstr::Unary(instr) => instr.uses(value),
            IntInstr::Compare(instr) => instr.uses(value),
            IntInstr::Extend(instr) => instr.uses(value),
            IntInstr::IntToFloat(instr) => instr.uses(value),
            IntInstr::Truncate(instr) => instr.uses(value),
        }
    }

    /// Whether `self` is `before` with every use of `replace` turned into `with`.
    pub open spec fn replaces(self, before: Self, replace: Value, with: Value) -> bool {
        match (self, before) {
            (IntInstr::Binary(after), IntInstr::Binary(instr)) => after.replaces(instr, replace, with),
            (IntInstr::Unary(after), IntInstr::Unary(instr)) => after.replaces(instr, replace, with),
            (IntInstr::Compare(after), IntInstr::Compare(instr)) => after.replaces(instr, replace, with),
            (IntInstr::Extend(after), IntInstr::Extend(instr)) => after.replaces(instr, replace, with),
            (IntInstr::IntToFloat(after), IntInstr::IntToFloat(instr)) => after.replaces(instr, replace, with),
            (IntInstr::Truncate(after), IntInstr::Truncate(instr)) => after.replaces(instr, replace, with),
            _ => false,
        }
    }

    /// The type of the value that the instruction produces.
    pub open spec fn result_type(self) -> Type {
        match self {
            IntInstr::Binary(instr) => instr.result_type(),
            IntInstr::Unary(instr) => instr.result_type(),
            IntInstr::Compare(instr) => instr.result_type(),
            IntInstr::Extend(instr) => instr.result_type(),
            IntInstr::IntToFloat(instr) => instr.result_type(),
            IntInstr::Truncate(instr) => instr.result_type(),
        }
    }

    /// Returns the type of the value that the instruction produces.
    pub fn ty(&self) -> (ty: Type)
        ensures
            ty == self.result_type(),
    {
        match self {
            IntInstr::Binary(instr) => Type::Int(instr.ty()),
            IntInstr::Unary(instr) => instr.ty(),
            IntInstr::Compare(instr) => instr.ty(),
            IntInstr::Extend(instr) => instr.ty(),
            IntInstr::IntToFloat(instr) => instr.ty(),
            IntInstr::Truncate(instr) => instr.ty(),
        }
    }

    /// Calls the visitor on the used values in order until it asks to stop.
    ///
    /// Returns `true` if the visitor asked to continue at every value.
    pub fn visit_values<F: Fn(Value) -> bool>(&self, visitor: &F) -> (completed: bool)
        requires
            forall|value: Value| self.uses(value) ==> #[trigger] visitor.requires((value,)),
        ensures
            completed ==> forall|value: Value|
                self.uses(value) ==> #[trigger] visitor.ensures((value,), true),
            !completed ==> exists|value: Value|
                self.uses(value) && #[trigger] visitor.ensures((value,), false),
    {
        match self {
            IntInstr::Binary(instr) => instr.visit_values(visitor),
            IntInstr::Unary(instr) => instr.visit_values(visitor),
            IntInstr::Compare(instr) => instr.visit_values(visitor),
            IntInstr::Extend(instr) => instr.visit_values(visitor),
            IntInstr::IntToFloat(instr) => instr.visit_values(visitor),
            IntInstr::Truncate(instr) => instr.visit_values(visitor),
        }
    }

    /// Replaces every use of `replace` by `with`.
    ///
    /// Returns `true` if a value has been replaced in the instruction.
    pub fn replace_value(&mut self, replace: Value, with: Value) -> (replaced: bool)
        ensures
            final(self).replaces(*old(self), replace, with),
            replaced == old(self).uses(replace),
    {
        match self {
            IntInstr::Binary(instr) => instr.replace_value(replace, with),
            IntInstr::Unary(instr) => instr.replace_value(replace, with),
            IntInstr::Compare(instr) => instr.replace_value(replace, with),
            IntInstr::Extend(instr) => instr.replace_value(replace, with),
            IntInstr::IntToFloat(instr) => instr.replace_value(replace, with),
            IntInstr::Truncate(instr) => instr.replace_value(replace, with),
        }
    }
}

} // verus!
