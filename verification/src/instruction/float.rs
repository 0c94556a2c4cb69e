//! Floating point number instructions.

use crate::instruction::visit::{replace_in, replace_operand};
use crate::primitive::{FloatType, IntType, Type, Value};
use vstd::prelude::*;

verus! {

/// Binary floating point number operand codes.
#[derive(Debug, Copy, Clone, PartialEq, Eq, Structural, PartialOrd, Ord, Hash)]
pub enum BinaryFloatOp {
    /// Addition.
    Add,
    /// Subtraction.
    Sub,
    /// Multiplication.
    Mul,
    /// Division.
    Div,
    /// The minimum of two numbers.
    Min,
    /// The maximum of two numbers.
    Max,
    /// The first operand with the sign bit of the second.
    Copysign,
}

/// The base of all binary floating point number instructions.
#[derive(Debug, Copy, Clone, PartialEq, Eq)]
pub struct BinaryFloatInstr {
    /// The operand code.
    pub op: BinaryFloatOp,
    /// The type of the operands and of the result.
    pub float_type: FloatType,
    /// The left-hand side value.
    pub lhs: Value,
    /// The right-hand side value.
    pub rhs: Value,
}

impl BinaryFloatInstr {
    /// Creates the instruction from its parts.
    pub fn new(op: BinaryFloatOp, float_type: FloatType, lhs: Value, rhs: Value) -> (instr: Self)
        ensures
            instr == (Self { op, float_type, lhs, rhs }),
    {
        Self { op, float_type, lhs, rhs }
    }

    /// Whether the instruction uses the value.
    pub open spec fn uses(self, value: Value) -> bool {
        self.lhs == value || self.rhs == value
    }

    /// Whether `self` is `before` with every use of `replace` turned into `with`.
    pub open spec fn replaces(self, before: Self, replace: Value, with: Value) -> bool {
        &&& self.op == before.op
        &&& self.float_type == before.float_type
        &&& self.lhs == replace_in(before.lhs, replace, with)
        &&& self.rhs == replace_in(before.rhs, replace, with)
    }

    /// Calls the visitor on the used values in order until it asks to stop.
    ///
    /// Returns `true` if the visitor asked to continue at every value.
    pub fn visit_values<F: Fn(Value) -> bool>(&self, visitor: &F) -> (completed: bool)
        requires
            forall|value: Value| self.uses(value) ==> #[trigger] visitor.requires((value,)),
        ensures
            completed ==> forall|value: Value|
                self.uses(value) ==> #[trigger] visitor.ensures((value,), true),
            !completed ==> exists|value: Value|
                self.uses(value) && #[trigger] visitor.ensures((value,), false),
    {
        assert(self.uses(self.lhs));
        assert(self.uses(self.rhs));
        visitor(self.lhs) && visitor(self.rhs)
    }

    /// Replaces every use of `replace` by `with`.
    ///
    /// Returns `true` if a value has been replaced in the instruction.
    pub fn replace_value(&mut self, replace: Value, with: Value) -> (replaced: bool)
        ensures
            final(self).replaces(*old(self), replace, with),
            replaced == old(self).uses(replace),
    {
        let in_lhs = replace_operand(&mut self.lhs, replace, with);
        let in_rhs = replace_operand(&mut self.rhs, replace, with);
        in_lhs || in_rhs
    }

    /// The type of the value that the instruction produces.
    pub open spec fn result_type(self) -> Type {
        Type::Float(self.float_type)
    }

    /// Returns the type of the value that the instruction produces.
    pub fn ty(&self) -> (ty: Type)
        ensures
            ty == self.result_type(),
    {
        Type::Float(self.float_type)
    }
}

/// Unary floating point number operand codes.
#[derive(Debug, Copy, Clone, PartialEq, Eq, Structural, PartialOrd, Ord, Hash)]
pub enum UnaryFloatOp {
    /// The absolute value.
    Abs,
    /// The negated value.
    Neg,
    /// The square root.
    Sqrt,
    /// Rounds up to an integer.
    Ceil,
    /// Rounds down to an integer.
    Floor,
    /// Rounds towards zero to an integer.
    Truncate,
    /// Rounds to the nearest integer, ties to even.
    Nearest,
}

/// The base of all unary floating point number instructions.
#[derive(Debug, Copy, Clone, PartialEq, Eq)]
pub struct UnaryFloatInstr {
    /// The operand code.
    pub op: UnaryFloatOp,
    /// The type of the operand and of the result.
    pub float_type: FloatType,
    /// The value that is operated on.
    pub src: Value,
}

impl UnaryFloatInstr {
    /// Creates the instruction from its parts.
    pub fn new(op: UnaryFloatOp, float_type: FloatType, src: Value) -> (instr: Self)
        ensures
            instr == (Self { op, float_type, src }),
    {
        Self { op, float_type, src }
    }

    /// Whether the instruction uses the value.
    pub open spec fn uses(self, value: Value) -> bool {
        self.src == value
    }

    /// Whether `self` is `before` with every use of `replace` turned into `with`.
    pub open spec fn replaces(self, before: Self, replace: Value, with: Value) -> bool {
        &&& self.op == before.op
        &&& self.float_type == before.float_type
        &&& self.src == replace_in(before.src, replace, with)
    }

    /// Calls the visitor on the used values in order until it asks to stop.
    ///
    /// Returns `true` if the visitor asked to continue at every value.
    pub fn visit_values<F: Fn(Value) -> bool>(&self, visitor: &F) -> (completed: bool)
        requires
            forall|value: Value| self.uses(value) ==> #[trigger] visitor.requires((value,)),
        ensures
            completed ==> forall|value: Value|
                self.uses(value) ==> #[trigger] visitor.ensures((value,), true),
            !completed ==> exists|value: Value|
                self.uses(value) && #[trigger] visitor.ensures((value,), false),
    {
        assert(self.uses(self.src));
        visitor(self.src)
    }

    /// Replaces every use of `replace` by `with`.
    ///
    /// Returns `true` if a value has been replaced in the instruction.
    pub fn replace_value(&mut self, replace: Value, with: Value) -> (replaced: bool)
        ensures
            final(self).replaces(*old(self), replace, with),
            replaced == old(self).uses(replace),
    {
        let in_src = replace_operand(&mut self.src, replace, with);
        in_src
    }

    /// The type of the value that the instruction produces.
    pub open spec fn result_type(self) -> Type {
        Type::Float(self.float_type)
    }

    /// Returns the type of the value that the instruction produces.
    pub fn ty(&self) -> (ty: Type)
        ensures
            ty == self.result_type(),
    {
        Type::Float(self.float_type)
    }
}

/// Floating point number comparison operand codes.
#[derive(Debug, Copy, Clone, PartialEq, Eq, Structural, PartialOrd, Ord, Hash)]
pub enum CompareFloatOp {
    /// Equality.
    Eq,
    /// Inequality.
    Ne,
    /// Less-equals.
    Le,
    /// Less-than.
    Lt,
    /// Greater-equals.
    Ge,
    /// Greater-than.
    Gt,
}

/// Compares two floating point numbers of the same type. The result is a `Bool`.
#[derive(Debug, Copy, Clone, PartialEq, Eq)]
pub struct CompareFloatInstr {
    /// The operand code.
    pub op: CompareFloatOp,
    /// The type of both operands.
    pub float_type: FloatType,
    /// The left-hand side value.
    pub lhs: Value,
    /// The right-hand side value.
    pub rhs: Value,
}

impl CompareFloatInstr {
    /// Creates the instruction from its parts.
    pub fn new(op: CompareFloatOp, float_type: FloatType, lhs: Value, rhs: Value) -> (instr: Self)
        ensures
            instr == (Self { op, float_type, lhs, rhs }),
    {
        Self { op, float_type, lhs, rhs }
    }

    /// Whether the instruction uses the value.
    pub open spec fn uses(self, value: Value) -> bool {
        self.lhs == value || self.rhs == value
    }

    /// Whether `self` is `before` with every use of `replace` turned into `with`.
    pub open spec fn replaces(self, before: Self, replace: Value, with: Value) -> bool {
        &&& self.op == before.op
        &&& self.float_type == before.float_type
        &&& self.lhs == replace_in(before.lhs, replace, with)
        &&& self.rhs == replace_in(before.rhs, replace, with)
    }

    /// Calls the visitor on the used values in order until it asks to stop.
    ///
    /// Returns `true` if the visitor asked to continue at every value.
    pub fn visit_values<F: Fn(Value) -> bool>(&self, visitor: &F) -> (completed: bool)
        requires
            forall|value: Value| self.uses(value) ==> #[trigger] visitor.requires((value,)),
        ensures
            completed ==> forall|value: Value|
                self.uses(value) ==> #[trigger] visitor.ensures((value,), true),
            !completed ==> exists|value: Value|
                self.uses(value) && #[trigger] visitor.ensures((value,), false),
    {
        assert(self.uses(self.lhs));
        assert(self.uses(self.rhs));
        visitor(self.lhs) && visitor(self.rhs)
    }

    /// Replaces every use of `replace` by `with`.
    ///
    /// Returns `true` if a value has been replaced in the instruction.
    pub fn replace_value(&mut self, replace: Value, with: Value) -> (replaced: bool)
        ensures
            final(self).replaces(*old(self), replace, with),
            replaced == old(self).uses(replace),
    {
        let in_lhs = replace_operand(&mut self.lhs, replace, with);
        let in_rhs = replace_operand(&mut self.rhs, replace, with);
        in_lhs || in_rhs
    }

    /// The type of the value that the instruction produces.
    pub open spec fn result_type(self) -> Type {
        Type::Bool
    }

    /// Returns the type of the value that the instruction produces.
    pub fn ty(&self) -> (ty: Type)
        ensures
            ty == self.result_type(),
    {
        Type::Bool
    }
}

/// Demotes a 64-bit floating point number to 32 bits.
#[derive(Debug, Copy, Clone, PartialEq, Eq)]
pub struct DemoteFloatInstr {
    /// The value that is demoted.
    pub src: Value,
}

impl DemoteFloatInstr {
    /// Creates the instruction from its parts.
    pub fn new(src: Value) -> (instr: Self)
        ensures
            instr == (Self { src }),
    {
        Self { src }
    }

    /// Whether the instruction uses the value.
    pub open spec fn uses(self, value: Value) -> bool {
        self.src == value
    }

    /// Whether `self` is `before` with every use of `replace` turned into `with`.
    pub open spec fn replaces(self, before: Self, replace: Value, with: Value) -> bool {
        &&& self.src == replace_in(before.src, replace, with)
    }

    /// Calls the visitor on the used values in order until it asks to stop.
    ///
    /// Returns `true` if the visitor asked to continue at every value.
    pub fn visit_values<F: Fn(Value) -> bool>(&self, visitor: &F) -> (completed: bool)
        requires
            forall|value: Value| self.uses(value) ==> #[trigger] visitor.requires((value,)),
        ensures
            completed ==> forall|value: Value|
                self.uses(value) ==> #[trigger] visitor.ensures((value,), true),
            !completed ==> exists|value: Value|
                self.uses(value) && #[trigger] visitor.ensures((value,), false),
    {
        assert(self.uses(self.src));
        visitor(self.src)
    }

    /// Replaces every use of `replace` by `with`.
    ///
    /// Returns `true` if a value has been replaced in the instruction.
    pub fn replace_value(&mut self, replace: Value, with: Value) -> (replaced: bool)
        ensures
            final(self).replaces(*old(self), replace, with),
            replaced == old(self).uses(replace),
    {
        let in_src = replace_operand(&mut self.src, replace, with);
        in_src
    }

    /// The type of the value that the instruction produces.
    pub open spec fn result_type(self) -> Type {
        Type::Float(FloatType::F32)
    }

    /// Returns the type of the value that the instruction produces.
    pub fn ty(&self) -> (ty: Type)
        ensures
            ty == self.result_type(),
    {
        Type::Float(FloatType::F32)
    }
}

/// Promotes a 32-bit floating point number to 64 bits.
#[derive(Debug, Copy, Clone, PartialEq, Eq)]
pub struct PromoteFloatInstr {
    /// The value that is promoted.
    pub src: Value,
}

impl PromoteFloatInstr {
    /// Creates the instruction from its parts.
    pub fn new(src: Value) -> (instr: Self)
        ensures
            instr == (Self { src }),
    {
        Self { src }
    }

    /// Whether the instruction uses the value.
    pub open spec fn uses(self, value: Value) -> bool {
        self.src == value
    }

    /// Whether `self` is `before` with every use of `replace` turned into `with`.
    pub open spec fn replaces(self, before: Self, replace: Value, with: Value) -> bool {
        &&& self.src == replace_in(before.src, replace, with)
    }

    /// Calls the visitor on the used values in order until it asks to stop.
    ///
    /// Returns `true` if the visitor asked to continue at every value.
    pub fn visit_values<F: Fn(Value) -> bool>(&self, visitor: &F) -> (completed: bool)
        requires
            forall|value: Value| self.uses(value) ==> #[trigger] visitor.requires((value,)),
        ensures
            completed ==> forall|value: Value|
                self.uses(value) ==> #[trigger] visitor.ensures((value,), true),
            !completed ==> exists|value: Value|
                self.uses(value) && #[trigger] visitor.ensures((value,), false),
    {
        assert(self.uses(self.src));
        visitor(self.src)
    }

    /// Replaces every use of `replace` by `with`.
    ///
    /// Returns `true` if a value has been replaced in the instruction.
    pub fn replace_value(&mut self, replace: Value, with: Value) -> (replaced: bool)
        ensures
            final(self).replaces(*old(self), replace, with),
            replaced == old(self).uses(replace),
    {
        let in_src = replace_operand(&mut self.src, replace, with);
        in_src
    }

    /// The type of the value that the instruction produces.
    pub open spec fn result_type(self) -> Type {
        Type::Float(FloatType::F64)
    }

    /// Returns the type of the value that the instruction produces.
    pub fn ty(&self) -> (ty: Type)
        ensures
            ty == self.result_type(),
    {
        Type::Float(FloatType::F64)
    }
}

/// Converts a floating point number to an integer, signed or unsigned.
#[derive(Debug, Copy, Clone, PartialEq, Eq)]
pub struct FloatToIntInstr {
    /// Whether the result is a signed integer.
    pub signed: bool,
    /// The floating point number type of the source.
    pub src_type: FloatType,
    /// The integer type of the result.
    pub dst_type: IntType,
    /// The value that is converted.
    pub src: Value,
}

impl FloatToIntInstr {
    /// Creates the instruction from its parts.
    pub fn new(signed: bool, src_type: FloatType, dst_type: IntType, src: Value) -> (instr: Self)
        ensures
            instr == (Self { signed, src_type, dst_type, src }),
    {
        Self { signed, src_type, dst_type, src }
    }

    /// Whether the instruction uses the value.
    pub open spec fn uses(self, value: Value) -> bool {
        self.src == value
    }

    /// Whether `self` is `before` with every use of `replace` turned into `with`.
    pub open spec fn replaces(self, before: Self, replace: Value, with: Value) -> bool {
        &&& self.signed == before.signed
        &&& self.src_type == before.src_type
        &&& self.dst_type == before.dst_type
        &&& self.src == replace_in(before.src, replace, with)
    }

    /// Calls the visitor on the used values in order until it asks to stop.
    ///
    /// Returns `true` if the visitor asked to continue at every value.
    pub fn visit_values<F: Fn(Value) -> bool>(&self, visitor: &F) -> (completed: bool)
        requires
            forall|value: Value| self.uses(value) ==> #[trigger] visitor.requires((value,)),
        ensures
            completed ==> forall|value: Value|
                self.uses(value) ==> #[trigger] visitor.ensures((value,), true),
            !completed ==> exists|value: Value|
                self.uses(value) && #[trigger] visitor.ensures((value,), false),
    {
        assert(self.uses(self.src));
        visitor(self.src)
    }

    /// Replaces every use of `replace` by `with`.
    ///
    /// Returns `true` if a value has been replaced in the instruction.
    pub fn replace_value(&mut self, replace: Value, with: Value) -> (replaced: bool)
        ensures
            final(self).replaces(*old(self), replace, with),
            replaced == old(self).uses(replace),
    {
        let in_src = replace_operand(&mut self.src, replace, with);
        in_src
    }

    /// The type of the value that the instruction produces.
    pub open spec fn result_type(self) -> Type {
        Type::Int(self.dst_type)
    }

    /// Returns the type of the value that the instruction produces.
    pub fn ty(&self) -> (ty: Type)
        ensures
            ty == self.result_type(),
    {
        Type::Int(self.dst_type)
    }
}

/// Any floating point number instruction.
#[derive(Debug, Copy, Clone, PartialEq, Eq)]
pub enum FloatInstr {
    /// A binary floating point number instruction.
    Binary(BinaryFloatInstr),
    /// A unary floating point number instruction.
    Unary(UnaryFloatInstr),
    /// A floating point number comparison.
    Compare(CompareFloatInstr),
    /// A demotion to 32 bits.
    Demote(DemoteFloatInstr),
    /// A promotion to 64 bits.
    Promote(PromoteFloatInstr),
    /// A conversion from floating point number to integer.
    FloatToInt(FloatToIntInstr),
}

impl FloatInstr {
    /// Whether the instruction uses the value.
    pub open spec fn uses(self, value: Value) -> bool {
        match self {
            FloatInstr::Binary(instr) => instr.uses(value),
            FloatInstr::Unary(instr) => instr.uses(value),
            FloatInstr::Compare(instr) => instr.uses(value),
            FloatInstr::Demote(instr) => instr.uses(value),
            FloatInstr::Promote(instr) => instr.uses(value),
            FloatInstr::FloatToInt(instr) => instr.uses(value),
        }
    }

    /// Whether `self` is `before` with every use of `replace` turned into `with`.
    pub open spec fn replaces(self, before: Self, replace: Value, with: Value) -> bool {
        match (self, before) {
            (FloatInstr::Binary(after), FloatInstr::Binary(instr)) => after.replaces(instr, replace, with),
            (FloatInstr::Unary(after), FloatInstr::Unary(instr)) => after.replaces(instr, replace, with),
            (FloatInstr::Compare(after), FloatInstr::Compare(instr)) => after.replaces(instr, replace, with),
            (FloatInstr::Demote(after), FloatInstr::Demote(instr)) => after.replaces(instr, replace, with),
            (FloatInstr::Promote(after), FloatInstr::Promote(instr)) => after.replaces(instr, replace, with),
            (FloatInstr::FloatToInt(after), FloatInstr::FloatToInt(instr)) => after.replaces(instr, replace, with),
            _ => false,
        }
    }

    /// The type of the value that the instruction produces.
    pub open spec fn result_type(self) -> Type {
        match self {
            FloatInstr::Binary(instr) => instr.result_type(),
            FloatInstr::Unary(instr) => instr.result_type(),
            FloatInstr::Compare(instr) => instr.result_type(),
            FloatInstr::Demote(instr) => instr.result_type(),
            FloatInstr::Promote(instr) => instr.result_type(),
            FloatInstr::FloatToInt(instr) => instr.result_type(),
        }
    }

    /// Returns the type of the value that the instruction produces.
    pub fn ty(&self) -> (ty: Type)
        ensures
            ty == self.result_type(),
    {
        match self {
            FloatInstr::Binary(instr) => instr.ty(),
            FloatInstr::Unary(instr) => instr.ty(),
            FloatInstr::Compare(instr) => instr.ty(),
            FloatInstr::Demote(instr) => instr.ty(),
            FloatInstr::Promote(instr) => instr.ty(),
            FloatInstr::FloatToInt(instr) => instr.ty(),
        }
    }

    /// Calls the visitor on the used values in order until it asks to stop.
    ///
    /// Returns `true` if the visitor asked to continue at every value.
    pub fn visit_values<F: Fn(Value) -> bool>(&self, visitor: &F) -> (completed: bool)
        requires
            forall|value: Value| self.uses(value) ==> #[trigger] visitor.requires((value,)),
        ensures
            completed ==> forall|value: Value|
                self.uses(value) ==> #[trigger] visitor.ensures((value,), true),
            !completed ==> exists|value: Value|
                self.uses(value) && #[trigger] visitor.ensures((value,), false),
    {
        match self {
            FloatInstr::Binary(instr) => instr.visit_values(visitor),
            FloatInstr::Unary(instr) => instr.visit_values(visitor),
            FloatInstr::Compare(instr) => instr.visit_values(visitor),
            FloatInstr::Demote(instr) => instr.visit_values(visitor),
            FloatInstr::Promote(instr) => instr.visit_values(visitor),
            FloatInstr::FloatToInt(instr) => instr.visit_values(visitor),
        }
    }

    /// Replaces every use of `replace` by `with`.
    ///
    /// Returns `true` if a value has been replaced in the instruction.
    pub fn replace_value(&mut self, replace: Value, with: Value) -> (replaced: bool)
        ensures
            final(self).replaces(*old(self), replace, with),
            replaced == old(self).uses(replace),
    {
        match self {
            FloatInstr::Binary(instr) => instr.replace_value(replace, with),
            FloatInstr::Unary(instr) => instr.replace_value(replace, with),
            FloatInstr::Compare(instr) => instr.replace_value(replace, with),
            FloatInstr::Demote(instr) => instr.replace_value(replace, with),
            FloatInstr::Promote(instr) => instr.replace_value(replace, with),
            FloatInstr::FloatToInt(instr) => instr.replace_value(replace, with),
        }
    }
}

} // verus!
