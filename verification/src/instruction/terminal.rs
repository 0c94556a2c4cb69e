//! Terminal instructions: every basic block ends in exactly one of them.

use crate::instruction::visit::{
    replace_in,
    replace_in_all,
    replace_operand,
    replace_operands,
    visit_operands,
};
use crate::primitive::{Block, Func, Value};
use vstd::prelude::*;

verus! {

/// Returns from the function, with a value if the function has a result.
#[derive(Debug, Copy, Clone, PartialEq, Eq)]
pub struct ReturnInstr {
    /// The returned value, if any.
    pub return_value: Option<Value>,
}

impl ReturnInstr {
    /// Creates the return of the value.
    pub fn new(return_value: Value) -> (instr: Self)
        ensures
            instr == (Self { return_value: Some(return_value) }),
    {
        Self { return_value: Some(return_value) }
    }

    /// Creates the return from a function without a result.
    pub fn nothing() -> (instr: Self)
        ensures
            instr == (Self { return_value: None }),
    {
        Self { return_value: None }
    }

    /// Whether the instruction uses the value.
    pub open spec fn uses(self, value: Value) -> bool {
        self.return_value == Some(value)
    }

    /// Whether `self` is `before` with every use of `replace` turned into `with`.
    pub open spec fn replaces(self, before: Self, replace: Value, with: Value) -> bool {
        self.return_value == match before.return_value {
            Some(value) => Some(replace_in(value, replace, with)),
            None => None,
        }
    }

    /// Calls the visitor on the used values in order until it asks to stop.
    ///
    /// Returns `true` if the visitor asked to continue at every value.
    pub fn visit_values<F: Fn(Value) -> bool>(&self, visitor: &F) -> (completed: bool)
        requires
            forall|value: Value| self.uses(value) ==> #[trigger] visitor.requires((value,)),
        ensures
            completed ==> forall|value: Value|
                self.uses(value) ==> #[trigger] visitor.ensures((value,), true),
            !completed ==> exists|value: Value|
                self.uses(value) && #[trigger] visitor.ensures((value,), false),
    {
        match self.return_value {
            Some(value) => {
                assert(self.uses(value));
                visitor(value)
            },
            None => true,
        }
    }

    /// Replaces every use of `replace` by `with`.
    ///
    /// Returns `true` if a value has been replaced in the instruction.
    pub fn replace_value(&mut self, replace: Value, with: Value) -> (replaced: bool)
        ensures
            final(self).replaces(*old(self), replace, with),
            replaced == old(self).uses(replace),
    {
        match self.return_value {
            Some(value) => {
                if value == replace {
                    self.return_value = Some(with);
                    true
                } else {
                    false
                }
            },
            None => false,
        }
    }
}

/// Branches to another basic block.
#[derive(Debug, Copy, Clone, PartialEq, Eq)]
pub struct BranchInstr {
    /// The block that is branched to.
    pub target: Block,
}

impl BranchInstr {
    /// Creates the instruction from its parts.
    pub fn new(target: Block) -> (instr: Self)
        ensures
            instr == (Self { target }),
    {
        Self { target }
    }

    /// Whether the instruction uses the value.
    pub open spec fn uses(self, value: Value) -> bool {
        false
    }

    /// Whether `self` is `before` with every use of `replace` turned into `with`.
    pub open spec fn replaces(self, before: Self, replace: Value, with: Value) -> bool {
        &&& self.target == before.target
    }

    /// Calls the visitor on the used values in order until it asks to stop.
    ///
    /// Returns `true` if the visitor asked to continue at every value.
    pub fn visit_values<F: Fn(Value) -> bool>(&self, visitor: &F) -> (completed: bool)
        requires
            forall|value: Value| self.uses(value) ==> #[trigger] visitor.requires((value,)),
        ensures
            completed ==> forall|value: Value|
                self.uses(value) ==> #[trigger] visitor.ensures((value,), true),
            !completed ==> exists|value: Value|
                self.uses(value) && #[trigger] visitor.ensures((value,), false),
    {
        true
    }

    /// Replaces every use of `replace` by `with`.
    ///
    /// Returns `true` if a value has been replaced in the instruction.
    pub fn replace_value(&mut self, replace: Value, with: Value) -> (replaced: bool)
        ensures
            final(self).replaces(*old(self), replace, with),
            replaced == old(self).uses(replace),
    {
        false
    }
}

/// Branches to one of two basic blocks by a condition.
///
/// A condition other than zero branches to `then_target`, zero to `else_target`.
#[derive(Debug, Copy, Clone, PartialEq, Eq)]
pub struct IfThenElseInstr {
    /// The condition, a `Bool`.
    pub condition: Value,
    /// The block for a condition other than zero.
    pub then_target: Block,
    /// The block for the condition zero.
    pub else_target: Block,
}

impl IfThenElseInstr {
    /// Creates the instruction from its parts.
    pub fn new(condition: Value, then_target: Block, else_target: Block) -> (instr: Self)
        ensures
            instr == (Self { condition, then_target, else_target }),
    {
        Self { condition, then_target, else_target }
    }

    /// Whether the instruction uses the value.
    pub open spec fn uses(self, value: Value) -> bool {
        self.condition == value
    }

    /// Whether `self` is `before` with every use of `replace` turned into `with`.
    pub open spec fn replaces(self, before: Self, replace: Value, with: Value) -> bool {
        &&& self.condition == replace_in(before.condition, replace, with)
        &&& self.then_target == before.then_target
        &&& self.else_target == before.else_target
    }

    /// Calls the visitor on the used values in order until it asks to stop.
    ///
    /// Returns `true` if the visitor asked to continue at every value.
    pub fn visit_values<F: Fn(Value) -> bool>(&self, visitor: &F) -> (completed: bool)
        requires
            forall|value: Value| self.uses(value) ==> #[trigger] visitor.requires((value,)),
        ensures
            completed ==> forall|value: Value|
                self.uses(value) ==> #[trigger] visitor.ensures((value,), true),
            !completed ==> exists|value: Value|
                self.uses(value) && #[trigger] visitor.ensures((value,), false),
    {
        assert(self.uses(self.condition));
        visitor(self.condition)
    }

    /// Replaces every use of `replace` by `with`.
    ///
    /// Returns `true` if a value has been replaced in the instruction.
    pub fn replace_value(&mut self, replace: Value, with: Value) -> (replaced: bool)
        ensures
            final(self).replaces(*old(self), replace, with),
            replaced == old(self).uses(replace),
    {
        let in_condition = replace_operand(&mut self.condition, replace, with);
        in_condition
    }
}

/// Branches to one of several basic blocks by an index.
///
/// An index beyond the listed targets branches to the default target.
#[derive(Debug, PartialEq, Eq)]
pub struct BranchTableInstr {
    /// The index that selects the target.
    pub case: Value,
    /// The target for an index beyond the others.
    pub default: Block,
    /// The targets by index.
    pub targets: Vec<Block>,
}

impl BranchTableInstr {
    /// Creates the instruction from its parts.
    pub fn new(case: Value, default: Block, targets: Vec<Block>) -> (instr: Self)
        ensures
            instr == (Self { case, default, targets }),
    {
        Self { case, default, targets }
    }

    /// Whether the instruction uses the value.
    pub open spec fn uses(self, value: Value) -> bool {
        self.case == value
    }

    /// Whether `self` is `before` with every use of `replace` turned into `with`.
    pub open spec fn replaces(self, before: Self, replace: Value, with: Value) -> bool {
        &&& self.case == replace_in(before.case, replace, with)
        &&& self.default == before.default
        &&& self.targets@ == before.targets@
    }

    /// Calls the visitor on the used values in order until it asks to stop.
    ///
    /// Returns `true` if the visitor asked to continue at every value.
    pub fn visit_values<F: Fn(Value) -> bool>(&self, visitor: &F) -> (completed: bool)
        requires
            forall|value: Value| self.uses(value) ==> #[trigger] visitor.requires((value,)),
        ensures
            completed ==> forall|value: Value|
                self.uses(value) ==> #[trigger] visitor.ensures((value,), true),
            !completed ==> exists|value: Value|
                self.uses(value) && #[trigger] visitor.ensures((value,), false),
    {
        assert(self.uses(self.case));
        visitor(self.case)
    }

    /// Replaces every use of `replace` by `with`.
    ///
    /// Returns `true` if a value has been replaced in the instruction.
    pub fn replace_value(&mut self, replace: Value, with: Value) -> (replaced: bool)
        ensures
            final(self).replaces(*old(self), replace, with),
            replaced == old(self).uses(replace),
    {
        let in_case = replace_operand(&mut self.case, replace, with);
        in_case
    }
}

/// Calls a function in place of returning: its result is the result of the caller.
#[derive(Debug, PartialEq, Eq)]
pub struct TailCallInstr {
    /// The called function.
    pub func: Func,
    /// The parameters of the call, in order.
    pub params: Vec<Value>,
}

impl TailCallInstr {
    /// Creates the instruction from its parts.
    pub fn new(func: Func, params: Vec<Value>) -> (instr: Self)
        ensures
            instr == (Self { func, params }),
    {
        Self { func, params }
    }

    /// Whether the instruction uses the value.
    pub open spec fn uses(self, value: Value) -> bool {
        self.params@.contains(value)
    }

    /// Whether `self` is `before` with every use of `replace` turned into `with`.
    pub open spec fn replaces(self, before: Self, replace: Value, with: Value) -> bool {
        &&& self.func == before.func
        &&& self.params@ == replace_in_all(before.params@, replace, with)
    }

    /// Calls the visitor on the used values in order until it asks to stop.
    ///
    /// Returns `true` if the visitor asked to continue at every value.
    pub fn visit_values<F: Fn(Value) -> bool>(&self, visitor: &F) -> (completed: bool)
        requires
            forall|value: Value| self.uses(value) ==> #[trigger] visitor.requires((value,)),
        ensures
            completed ==> forall|value: Value|
                self.uses(value) ==> #[trigger] visitor.ensures((value,), true),
            !completed ==> exists|value: Value|
                self.uses(value) && #[trigger] visitor.ensures((value,), false),
    {
        assert(forall|value: Value| self.params@.contains(value) ==> self.uses(value));
        visit_operands(&self.params, visitor)
    }

    /// Replaces every use of `replace` by `with`.
    ///
    /// Returns `true` if a value has been replaced in the instruction.
    pub fn replace_value(&mut self, replace: Value, with: Value) -> (replaced: bool)
        ensures
            final(self).replaces(*old(self), replace, with),
            replaced == old(self).uses(replace),
    {
        let in_params = replace_operands(&mut self.params, replace, with);
        in_params
    }
}

/// Any instruction that ends a basic block.
#[derive(Debug, PartialEq, Eq)]
pub enum TerminalInstr {
    /// Ends the execution with a trap.
    Trap,
    /// Returns from the function.
    Return(ReturnInstr),
    /// Branches to a block.
    Br(BranchInstr),
    /// Branches to one of two blocks.
    Ite(IfThenElseInstr),
    /// Branches to one of several blocks.
    BranchTable(BranchTableInstr),
    /// Returns by calling another function.
    TailCall(TailCallInstr),
}

impl TerminalInstr {
    /// Whether control can pass from the instruction to the block.
    pub open spec fn has_target(self, block: Block) -> bool {
        match self {
            TerminalInstr::Br(instr) => instr.target == block,
            TerminalInstr::Ite(instr) => instr.then_target == block || instr.else_target == block,
            TerminalInstr::BranchTable(instr) => instr.default == block || instr.targets@.contains(
                block,
            ),
            _ => false,
        }
    }

    /// Whether the instruction uses the value.
    pub open spec fn uses(self, value: Value) -> bool {
        match self {
            TerminalInstr::Trap => false,
            TerminalInstr::Return(instr) => instr.uses(value),
            TerminalInstr::Br(instr) => instr.uses(value),
            TerminalInstr::Ite(instr) => instr.uses(value),
            TerminalInstr::BranchTable(instr) => instr.uses(value),
            TerminalInstr::TailCall(instr) => instr.uses(value),
        }
    }

    /// Whether `self` is `before` with every use of `replace` turned into `with`.
    pub open spec fn replaces(self, before: Self, replace: Value, with: Value) -> bool {
        match (self, before) {
            (TerminalInstr::Trap, TerminalInstr::Trap) => true,
            (TerminalInstr::Return(after), TerminalInstr::Return(instr)) => after.replaces(
                instr,
                replace,
                with,
            ),
            (TerminalInstr::Br(after), TerminalInstr::Br(instr)) => after.replaces(
                instr,
                replace,
                with,
            ),
            (TerminalInstr::Ite(after), TerminalInstr::Ite(instr)) => after.replaces(
                instr,
                replace,
                with,
            ),
            (TerminalInstr::BranchTable(after), TerminalInstr::BranchTable(instr)) => after.replaces(
                instr,
                replace,
                with,
            ),
            (TerminalInstr::TailCall(after), TerminalInstr::TailCall(instr)) => after.replaces(
                instr,
                replace,
                with,
            ),
            _ => false,
        }
    }

    /// Calls the visitor on the used values in order until it asks to stop.
    ///
    /// Returns `true` if the visitor asked to continue at every value.
    pub fn visit_values<F: Fn(Value) -> bool>(&self, visitor: &F) -> (completed: bool)
        requires
            forall|value: Value| self.uses(value) ==> #[trigger] visitor.requires((value,)),
        ensures
            completed ==> forall|value: Value|
                self.uses(value) ==> #[trigger] visitor.ensures((value,), true),
            !completed ==> exists|value: Value|
                self.uses(value) && #[trigger] visitor.ensures((value,), false),
    {
        match self {
            TerminalInstr::Trap => true,
            TerminalInstr::Return(instr) => instr.visit_values(visitor),
            TerminalInstr::Br(instr) => instr.visit_values(visitor),
            TerminalInstr::Ite(instr) => instr.visit_values(visitor),
            TerminalInstr::BranchTable(instr) => instr.visit_values(visitor),
            TerminalInstr::TailCall(instr) => instr.visit_values(visitor),
        }
    }

    /// Replaces every use of `replace` by `with`.
    ///
    /// Returns `true` if a value has been replaced in the instruction.
    pub fn replace_value(&mut self, replace: Value, with: Value) -> (replaced: bool)
        ensures
            final(self).replaces(*old(self), replace, with),
            replaced == old(self).uses(replace),
    {
        match self {
            TerminalInstr::Trap => false,
            TerminalInstr::Return(instr) => instr.replace_value(replace, with),
            TerminalInstr::Br(instr) => instr.replace_value(replace, with),
            TerminalInstr::Ite(instr) => instr.replace_value(replace, with),
            TerminalInstr::BranchTable(instr) => instr.replace_value(replace, with),
            TerminalInstr::TailCall(instr) => instr.replace_value(replace, with),
        }
    }

}

impl BranchTableInstr {
    /// Whether the two instructions branch by the same index to the same
    /// targets.
    pub open spec fn alike(self, other: Self) -> bool {
        &&& self.case == other.case
        &&& self.default == other.default
        &&& self.targets@ == other.targets@
    }
}

impl Clone for BranchTableInstr {
    fn clone(&self) -> (instr: Self)
        ensures
            instr.alike(*self),
    {
        let targets = self.targets.clone();
        assert(targets@ =~= self.targets@);
        Self { case: self.case, default: self.default, targets }
    }
}

impl TailCallInstr {
    /// Whether the two instructions call the same function with the same
    /// parameters.
    pub open spec fn alike(self, other: Self) -> bool {
        self.func == other.func && self.params@ == other.params@
    }
}

impl Clone for TailCallInstr {
    fn clone(&self) -> (instr: Self)
        ensures
            instr.alike(*self),
    {
        let params = self.params.clone();
        assert(params@ =~= self.params@);
        Self { func: self.func, params }
    }
}

impl TerminalInstr {
    /// Whether the two instructions are of the same kind and the same in
    /// all their parts.
    pub open spec fn alike(self, other: Self) -> bool {
        match (self, other) {
            (TerminalInstr::BranchTable(a), TerminalInstr::BranchTable(b)) => a.alike(b),
            (TerminalInstr::TailCall(a), TerminalInstr::TailCall(b)) => a.alike(b),
            (TerminalInstr::BranchTable(_), _) | (TerminalInstr::TailCall(_), _) => false,
            _ => self == other,
        }
    }
}

impl Clone for TerminalInstr {
    fn clone(&self) -> (instr: Self)
        ensures
            instr.alike(*self),
    {
        match self {
            TerminalInstr::Trap => TerminalInstr::Trap,
            TerminalInstr::Return(instr) => TerminalInstr::Return(*instr),
            TerminalInstr::Br(instr) => TerminalInstr::Br(*instr),
            TerminalInstr::Ite(instr) => TerminalInstr::Ite(*instr),
            TerminalInstr::BranchTable(instr) => TerminalInstr::BranchTable(instr.clone()),
            TerminalInstr::TailCall(instr) => TerminalInstr::TailCall(instr.clone()),
        }
    }
}

} // verus!
