//! Constants, selection, reinterpretation and linear memory instructions.

use crate::instruction::visit::{replace_in, replace_operand};
use crate::primitive::{Const, IntType, Type, Value};
use vstd::prelude::*;

verus! {

/// Produces a constant value.
#[derive(Debug, Copy, Clone, PartialEq, Eq)]
pub struct ConstInstr {
    /// The constant value.
    pub const_value: Const,
}

impl ConstInstr {
    /// Creates the instruction from its parts.
    pub fn new(const_value: Const) -> (instr: Self)
        ensures
            instr == (Self { const_value }),
    {
        Self { const_value }
    }

    /// Whether the instruction uses the value.
    pub open spec fn uses(self, value: Value) -> bool {
        false
    }

    /// Whether `self` is `before` with every use of `replace` turned into `with`.
    pub open spec fn replaces(self, before: Self, replace: Value, with: Value) -> bool {
        &&& self.const_value == before.const_value
    }

    /// Calls the visitor on the used values in order until it asks to stop.
    ///
    /// Returns `true` if the visitor asked to continue at every value.
    pub fn visit_values<F: Fn(Value) -> bool>(&self, visitor: &F) -> (completed: bool)
        requires
            forall|value: Value| self.uses(value) ==> #[trigger] visitor.requires((value,)),
        ensures
            completed ==> forall|value: Value|
                self.uses(value) ==> #[trigger] visitor.ensures((value,), true),
            !completed ==> exists|value: Value|
                self.uses(value) && #[trigger] visitor.ensures((value,), false),
    {
        true
    }

    /// Replaces every use of `replace` by `with`.
    ///
    /// Returns `true` if a value has been replaced in the instruction.
    pub fn replace_value(&mut self, replace: Value, with: Value) -> (replaced: bool)
        ensures
            final(self).replaces(*old(self), replace, with),
            replaced == old(self).uses(replace),
    {
        false
    }

    /// The type of the value that the instruction produces.
    pub open spec fn result_type(self) -> Type {
        self.const_value.type_of()
    }

    /// Returns the type of the value that the instruction produces.
    pub fn ty(&self) -> (ty: Type)
        ensures
            ty == self.result_type(),
    {
        self.const_value.ty()
    }
}

/// Chooses between two values of the same type by a condition.
///
/// A condition other than zero selects `value_true`, zero selects `value_false`.
#[derive(Debug, Copy, Clone, PartialEq, Eq)]
pub struct SelectInstr {
    /// The condition, a `Bool`.
    pub condition: Value,
    /// The type of both values and of the result.
    pub value_type: Type,
    /// The value for a condition other than zero.
    pub value_true: Value,
    /// The value for the condition zero.
    pub value_false: Value,
}

impl SelectInstr {
    /// Creates the instruction from its parts.
    pub fn new(condition: Value, value_type: Type, value_true: Value, value_false: Value) -> (instr: Self)
        ensures
            instr == (Self { condition, value_type, value_true, value_false }),
    {
        Self { condition, value_type, value_true, value_false }
    }

    /// Whether the instruction uses the value.
    pub open spec fn uses(self, value: Value) -> bool {
        self.condition == value || self.value_true == value || self.value_false == value
    }

    /// Whether `self` is `before` with every use of `replace` turned into `with`.
    pub open spec fn replaces(self, before: Self, replace: Value, with: Value) -> bool {
        &&& self.condition == replace_in(before.condition, replace, with)
        &&& self.value_type == before.value_type
        &&& self.value_true == replace_in(before.value_true, replace, with)
        &&& self.value_false == replace_in(before.value_false, replace, with)
    }

    /// Calls the visitor on the used values in order until it asks to stop.
    ///
    /// Returns `true` if the visitor asked to continue at every value.
    pub fn visit_values<F: Fn(Value) -> bool>(&self, visitor: &F) -> (completed: bool)
        requires
            forall|value: Value| self.uses(value) ==> #[trigger] visitor.requires((value,)),
        ensures
            completed ==> forall|value: Value|
                self.uses(value) ==> #[trigger] visitor.ensures((value,), true),
            !completed ==> exists|value: Value|
                self.uses(value) && #[trigger] visitor.ensures((value,), false),
    {
        assert(self.uses(self.condition));
        assert(self.uses(self.value_true));
        assert(self.uses(self.value_false));
        visitor(self.condition) && visitor(self.value_true) && visitor(self.value_false)
    }

    /// Replaces every use of `replace` by `with`.
    ///
    /// Returns `true` if a value has been replaced in the instruction.
    pub fn replace_value(&mut self, replace: Value, with: Value) -> (replaced: bool)
        ensures
            final(self).replaces(*old(self), replace, with),
            replaced == old(self).uses(replace),
    {
        let in_condition = replace_operand(&mut self.condition, replace, with);
        let in_value_true = replace_operand(&mut self.value_true, replace, with);
        let in_value_false = replace_operand(&mut self.value_false, replace, with);
        in_condition || in_value_true || in_value_false
    }

    /// The type of the value that the instruction produces.
    pub open spec fn result_type(self) -> Type {
        self.value_type
    }

    /// Returns the type of the value that the instruction produces.
    pub fn ty(&self) -> (ty: Type)
        ensures
            ty == self.result_type(),
    {
        self.value_type
    }
}

/// Reinterprets the bits of a value as another type of the same bit width.
#[derive(Debug, Copy, Clone, PartialEq, Eq)]
pub struct ReinterpretInstr {
    /// The type of the source.
    pub src_type: Type,
    /// The type of the result.
    pub dst_type: Type,
    /// The value that is reinterpreted.
    pub src: Value,
}

impl ReinterpretInstr {
    /// Creates the instruction from its parts.
    pub fn new(src_type: Type, dst_type: Type, src: Value) -> (instr: Self)
        ensures
            instr == (Self { src_type, dst_type, src }),
    {
        Self { src_type, dst_type, src }
    }

    /// Whether the instruction uses the value.
    pub open spec fn uses(self, value: Value) -> bool {
        self.src == value
    }

    /// Whether `self` is `before` with every use of `replace` turned into `with`.
    pub open spec fn replaces(self, before: Self, replace: Value, with: Value) -> bool {
        &&& self.src_type == before.src_type
        &&& self.dst_type == before.dst_type
        &&& self.src == replace_in(before.src, replace, with)
    }

    /// Calls the visitor on the used values in order until it asks to stop.
    ///
    /// Returns `true` if the visitor asked to continue at every value.
    pub fn visit_values<F: Fn(Value) -> bool>(&self, visitor: &F) -> (completed: bool)
        requires
            forall|value: Value| self.uses(value) ==> #[trigger] visitor.requires((value,)),
        ensures
            completed ==> forall|value: Value|
                self.uses(value) ==> #[trigger] visitor.ensures((value,), true),
            !completed ==> exists|value: Value|
                self.uses(value) && #[trigger] visitor.ensures((value,), false),
    {
        assert(self.uses(self.src));
        visitor(self.src)
    }

    /// Replaces every use of `replace` by `with`.
    ///
    /// Returns `true` if a value has been replaced in the instruction.
    pub fn replace_value(&mut self, replace: Value, with: Value) -> (replaced: bool)
        ensures
            final(self).replaces(*old(self), replace, with),
            replaced == old(self).uses(replace),
    {
        let in_src = replace_operand(&mut self.src, replace, with);
        in_src
    }

    /// The type of the value that the instruction produces.
    pub open spec fn result_type(self) -> Type {
        self.dst_type
    }

    /// Returns the type of the value that the instruction produces.
    pub fn ty(&self) -> (ty: Type)
        ensures
            ty == self.result_type(),
    {
        self.dst_type
    }
}

/// Loads a value of the given type from the linear memory.
#[derive(Debug, Copy, Clone, PartialEq, Eq)]
pub struct LoadInstr {
    /// The type of the loaded value.
    pub value_type: Type,
    /// The address that is loaded from.
    pub address: Value,
    /// The constant offset that is added to the address.
    pub offset: u32,
    /// The alignment exponent that the access promises.
    pub alignment: u8,
}

impl LoadInstr {
    /// Creates the instruction from its parts.
    pub fn new(value_type: Type, address: Value, offset: u32, alignment: u8) -> (instr: Self)
        ensures
            instr == (Self { value_type, address, offset, alignment }),
    {
        Self { value_type, address, offset, alignment }
    }

    /// Whether the instruction uses the value.
    pub open spec fn uses(self, value: Value) -> bool {
        self.address == value
    }

    /// Whether `self` is `before` with every use of `replace` turned into `with`.
    pub open spec fn replaces(self, before: Self, replace: Value, with: Value) -> bool {
        &&& self.value_type == before.value_type
        &&& self.address == replace_in(before.address, replace, with)
        &&& self.offset == before.offset
        &&& self.alignment == before.alignment
    }

    /// Calls the visitor on the used values in order until it asks to stop.
    ///
    /// Returns `true` if the visitor asked to continue at every value.
    pub fn visit_values<F: Fn(Value) -> bool>(&self, visitor: &F) -> (completed: bool)
        requires
            forall|value: Value| self.uses(value) ==> #[trigger] visitor.requires((value,)),
        ensures
            completed ==> forall|value: Value|
                self.uses(value) ==> #[trigger] visitor.ensures((value,), true),
            !completed ==> exists|value: Value|
                self.uses(value) && #[trigger] visitor.ensures((value,), false),
    {
        assert(self.uses(self.address));
        visitor(self.address)
    }

    /// Replaces every use of `replace` by `with`.
    ///
    /// Returns `true` if a value has been replaced in the instruction.
    pub fn replace_value(&mut self, replace: Value, with: Value) -> (replaced: bool)
        ensures
            final(self).replaces(*old(self), replace, with),
            replaced == old(self).uses(replace),
    {
        let in_address = replace_operand(&mut self.address, replace, with);
        in_address
    }

    /// The type of the value that the instruction produces.
    pub open spec fn result_type(self) -> Type {
        self.value_type
    }

    /// Returns the type of the value that the instruction produces.
    pub fn ty(&self) -> (ty: Type)
        ensures
            ty == self.result_type(),
    {
        self.value_type
    }
}

/// Stores a value of the given type to the linear memory. Produces no value.
#[derive(Debug, Copy, Clone, PartialEq, Eq)]
pub struct StoreInstr {
    /// The type of the stored value.
    pub value_type: Type,
    /// The address that is stored to.
    pub address: Value,
    /// The value that is stored.
    pub stored: Value,
    /// The constant offset that is added to the address.
    pub offset: u32,
    /// The alignment exponent that the access promises.
    pub alignment: u8,
}

impl StoreInstr {
    /// Creates the instruction from its parts.
    pub fn new(value_type: Type, address: Value, stored: Value, offset: u32, alignment: u8) -> (instr: Self)
        ensures
            instr == (Self { value_type, address, stored, offset, alignment }),
    {
        Self { value_type, address, stored, offset, alignment }
    }

    /// Whether the instruction uses the value.
    pub open spec fn uses(self, value: Value) -> bool {
        self.address == value || self.stored == value
    }

    /// Whether `self` is `before` with every use of `replace` turned into `with`.
    pub open spec fn replaces(self, before: Self, replace: Value, with: Value) -> bool {
        &&& self.value_type == before.value_type
        &&& self.address == replace_in(before.address, replace, with)
        &&& self.stored == replace_in(before.stored, replace, with)
        &&& self.offset == before.offset
        &&& self.alignment == before.alignment
    }

    /// Calls the visitor on the used values in order until it asks to stop.
    ///
    /// Returns `true` if the visitor asked to continue at every value.
    pub fn visit_values<F: Fn(Value) -> bool>(&self, visitor: &F) -> (completed: bool)
        requires
            forall|value: Value| self.uses(value) ==> #[trigger] visitor.requires((value,)),
        ensures
            completed ==> forall|value: Value|
                self.uses(value) ==> #[trigger] visitor.ensures((value,), true),
            !completed ==> exists|value: Value|
                self.uses(value) && #[trigger] visitor.ensures((value,), false),
    {
        assert(self.uses(self.address));
        assert(self.uses(self.stored));
        visitor(self.address) && visitor(self.stored)
    }

    /// Replaces every use of `replace` by `with`.
    ///
    /// Returns `true` if a value has been replaced in the instruction.
    pub fn replace_value(&mut self, replace: Value, with: Value) -> (replaced: bool)
        ensures
            final(self).replaces(*old(self), replace, with),
            replaced == old(self).uses(replace),
    {
        let in_address = replace_operand(&mut self.address, replace, with);
        let in_stored = replace_operand(&mut self.stored, replace, with);
        in_address || in_stored
    }
}

/// Grows the linear memory by a number of pages and produces its former size in pages.
#[derive(Debug, Copy, Clone, PartialEq, Eq)]
pub struct MemoryGrowInstr {
    /// The number of pages to grow by.
    pub new_pages: Value,
}

impl MemoryGrowInstr {
    /// Creates the instruction from its parts.
    pub fn new(new_pages: Value) -> (instr: Self)
        ensures
            instr == (Self { new_pages }),
    {
        Self { new_pages }
    }

    /// Whether the instruction uses the value.
    pub open spec fn uses(self, value: Value) -> bool {
        self.new_pages == value
    }

    /// Whether `self` is `before` with every use of `replace` turned into `with`.
    pub open spec fn replaces(self, before: Self, replace: Value, with: Value) -> bool {
        &&& self.new_pages == replace_in(before.new_pages, replace, with)
    }

    /// Calls the visitor on the used values in order until it asks to stop.
    ///
    /// Returns `true` if the visitor asked to continue at every value.
    pub fn visit_values<F: Fn(Value) -> bool>(&self, visitor: &F) -> (completed: bool)
        requires
            forall|value: Value| self.uses(value) ==> #[trigger] visitor.requires((value,)),
        ensures
            completed ==> forall|value: Value|
                self.uses(value) ==> #[trigger] visitor.ensures((value,), true),
            !completed ==> exists|value: Value|
                self.uses(value) && #[trigger] visitor.ensures((value,), false),
    {
        assert(self.uses(self.new_pages));
        visitor(self.new_pages)
    }

    /// Replaces every use of `replace` by `with`.
    ///
    /// Returns `true` if a value has been replaced in the instruction.
    pub fn replace_value(&mut self, replace: Value, with: Value) -> (replaced: bool)
        ensures
            final(self).replaces(*old(self), replace, with),
            replaced == old(self).uses(replace),
    {
        let in_new_pages = replace_operand(&mut self.new_pages, replace, with);
        in_new_pages
    }

    /// The type of the value that the instruction produces.
    pub open spec fn result_type(self) -> Type {
        Type::Int(IntType::I32)
    }

    /// Returns the type of the value that the instruction produces.
    pub fn ty(&self) -> (ty: Type)
        ensures
            ty == self.result_type(),
    {
        Type::Int(IntType::I32)
    }
}

/// Produces the size of the linear memory in pages.
#[derive(Debug, Copy, Clone, PartialEq, Eq)]
pub struct MemorySizeInstr {
}

impl MemorySizeInstr {
    /// Creates the instruction from its parts.
    pub fn new() -> (instr: Self)
        ensures
            instr == (Self {  }),
    {
        Self {  }
    }

    /// Whether the instruction uses the value.
    pub open spec fn uses(self, value: Value) -> bool {
        false
    }

    /// Whether `self` is `before` with every use of `replace` turned into `with`.
    pub open spec fn replaces(self, before: Self, replace: Value, with: Value) -> bool {
        &&& true
    }

    /// Calls the visitor on the used values in order until it asks to stop.
    ///
    /// Returns `true` if the visitor asked to continue at every value.
    pub fn visit_values<F: Fn(Value) -> bool>(&self, visitor: &F) -> (completed: bool)
        requires
            forall|value: Value| self.uses(value) ==> #[trigger] visitor.requires((value,)),
        ensures
            completed ==> forall|value: Value|
                self.uses(value) ==> #[trigger] visitor.ensures((value,), true),
            !completed ==> exists|value: Value|
                self.uses(value) && #[trigger] visitor.ensures((value,), false),
    {
        true
    }

    /// Replaces every use of `replace` by `with`.
    ///
    /// Returns `true` if a value has been replaced in the instruction.
    pub fn replace_value(&mut self, replace: Value, with: Value) -> (replaced: bool)
        ensures
            final(self).replaces(*old(self), replace, with),
            replaced == old(self).uses(replace),
    {
        false
    }

    /// The type of the value that the instruction produces.
    pub open spec fn result_type(self) -> Type {
        Type::Int(IntType::I32)
    }

    /// Returns the type of the value that the instruction produces.
    pub fn ty(&self) -> (ty: Type)
        ensures
            ty == self.result_type(),
    {
        Type::Int(IntType::I32)
    }
}

} // verus!
