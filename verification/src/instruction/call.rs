//! Call instructions.

use crate::instruction::visit::{
    replace_in,
    replace_in_all,
    replace_operand,
    replace_operands,
    visit_operands,
};
use crate::primitive::{Func, FuncType, Table, Value};
use vstd::prelude::*;

verus! {

/// Calls a function with the given parameters.
#[derive(Debug, PartialEq, Eq)]
pub struct CallInstr {
    /// The called function.
    pub func: Func,
    /// The parameters of the call, in order.
    pub params: Vec<Value>,
}

impl CallInstr {
    /// Creates the instruction from its parts.
    pub fn new(func: Func, params: Vec<Value>) -> (instr: Self)
        ensures
            instr == (Self { func, params }),
    {
        Self { func, params }
    }

    /// Whether the instruction uses the value.
    pub open spec fn uses(self, value: Value) -> bool {
        self.params@.contains(value)
    }

    /// Whether `self` is `before` with every use of `replace` turned into `with`.
    pub open spec fn replaces(self, before: Self, replace: Value, with: Value) -> bool {
        &&& self.func == before.func
        &&& self.params@ == replace_in_all(before.params@, replace, with)
    }

    /// Calls the visitor on the used values in order until it asks to stop.
    ///
    /// Returns `true` if the visitor asked to continue at every value.
    pub fn visit_values<F: Fn(Value) -> bool>(&self, visitor: &F) -> (completed: bool)
        requires
            forall|value: Value| self.uses(value) ==> #[trigger] visitor.requires((value,)),
        ensures
            completed ==> forall|value: Value|
                self.uses(value) ==> #[trigger] visitor.ensures((value,), true),
            !completed ==> exists|value: Value|
                self.uses(value) && #[trigger] visitor.ensures((value,), false),
    {
        assert(forall|value: Value| self.params@.contains(value) ==> self.uses(value));
        visit_operands(&self.params, visitor)
    }

    /// Replaces every use of `replace` by `with`.
    ///
    /// Returns `true` if a value has been replaced in the instruction.
    pub fn replace_value(&mut self, replace: Value, with: Value) -> (replaced: bool)
        ensures
            final(self).replaces(*old(self), replace, with),
            replaced == old(self).uses(replace),
    {
        let in_params = replace_operands(&mut self.params, replace, with);
        in_params
    }
}

/// Calls the function that a table holds at an index, with the given parameters.
#[derive(Debug, PartialEq, Eq)]
pub struct CallIndirectInstr {
    /// The table that holds the function.
    pub table: Table,
    /// The type that the called function must have.
    pub func_type: FuncType,
    /// The index into the table.
    pub index: Value,
    /// The parameters of the call, in order.
    pub params: Vec<Value>,
}

impl CallIndirectInstr {
    /// Creates the instruction from its parts.
    pub fn new(table: Table, func_type: FuncType, index: Value, params: Vec<Value>) -> (instr: Self)
        ensures
            instr == (Self { table, func_type, index, params }),
    {
        Self { table, func_type, index, params }
    }

    /// Whether the instruction uses the value.
    pub open spec fn uses(self, value: Value) -> bool {
        self.index == value || self.params@.contains(value)
    }

    /// Whether `self` is `before` with every use of `replace` turned into `with`.
    pub open spec fn replaces(self, before: Self, replace: Value, with: Value) -> bool {
        &&& self.table == before.table
        &&& self.func_type == before.func_type
        &&& self.index == replace_in(before.index, replace, with)
        &&& self.params@ == replace_in_all(before.params@, replace, with)
    }

    /// Calls the visitor on the used values in order until it asks to stop.
    ///
    /// Returns `true` if the visitor asked to continue at every value.
    pub fn visit_values<F: Fn(Value) -> bool>(&self, visitor: &F) -> (completed: bool)
        requires
            forall|value: Value| self.uses(value) ==> #[trigger] visitor.requires((value,)),
        ensures
            completed ==> forall|value: Value|
                self.uses(value) ==> #[trigger] visitor.ensures((value,), true),
            !completed ==> exists|value: Value|
                self.uses(value) && #[trigger] visitor.ensures((value,), false),
    {
        assert(self.uses(self.index));
        assert(forall|value: Value| self.params@.contains(value) ==> self.uses(value));
        visitor(self.index) && visit_operands(&self.params, visitor)
    }

    /// Replaces every use of `replace` by `with`.
    ///
    /// Returns `true` if a value has been replaced in the instruction.
    pub fn replace_value(&mut self, replace: Value, with: Value) -> (replaced: bool)
        ensures
            final(self).replaces(*old(self), replace, with),
            replaced == old(self).uses(replace),
    {
        let in_index = replace_operand(&mut self.index, replace, with);
        let in_params = replace_operands(&mut self.params, replace, with);
        in_index || in_params
    }
}

impl CallInstr {
    /// Whether the two instructions call the same function with the same
    /// parameters.
    pub open spec fn alike(self, other: Self) -> bool {
        self.func == other.func && self.params@ == other.params@
    }
}

impl Clone for CallInstr {
    fn clone(&self) -> (instr: Self)
        ensures
            instr.alike(*self),
    {
        let params = self.params.clone();
        assert(params@ =~= self.params@);
        Self { func: self.func, params }
    }
}

impl CallIndirectInstr {
    /// Whether the two instructions call through the same table and index,
    /// with the same type of function and the same parameters.
    pub open spec fn alike(self, other: Self) -> bool {
        &&& self.table == other.table
        &&& self.func_type == other.func_type
        &&& self.index == other.index
        &&& self.params@ == other.params@
    }
}

impl Clone for CallIndirectInstr {
    fn clone(&self) -> (instr: Self)
        ensures
            instr.alike(*self),
    {
        let params = self.params.clone();
        assert(params@ =~= self.params@);
        Self { table: self.table, func_type: self.func_type, index: self.index, params }
    }
}

} // verus!
