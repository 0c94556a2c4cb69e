//! The instructions of the IR: a closed set of shapes with uniform access
//! to the values they use.

pub mod basic;
pub mod call;
pub mod float;
pub mod integer;
pub mod phi;
pub mod terminal;
pub mod visit;

pub use self::basic::{
    ConstInstr,
    LoadInstr,
    MemoryGrowInstr,
    MemorySizeInstr,
    ReinterpretInstr,
    SelectInstr,
    StoreInstr,
};
pub use self::call::{CallIndirectInstr, CallInstr};
pub use self::float::{
    BinaryFloatInstr,
    BinaryFloatOp,
    CompareFloatInstr,
    CompareFloatOp,
    DemoteFloatInstr,
    FloatInstr,
    FloatToIntInstr,
    PromoteFloatInstr,
    UnaryFloatInstr,
    UnaryFloatOp,
};
pub use self::integer::{
    BinaryIntInstr,
    BinaryIntOp,
    CompareIntInstr,
    CompareIntOp,
    ExtendIntInstr,
    IntInstr,
    IntToFloatInstr,
    TruncateIntInstr,
    UnaryIntInstr,
    UnaryIntOp,
};
pub use self::phi::{IncompletePhi, Iter, PhiInstr};
pub use self::terminal::{
    BranchInstr,
    BranchTableInstr,
    IfThenElseInstr,
    ReturnInstr,
    TailCallInstr,
    TerminalInstr,
};
use crate::entity::index::Idx;
use self::visit::{lemma_replace_in_all_contains, lemma_replace_in_all_unused, replace_in};
use crate::primitive::{Block, Type, Value};
use vstd::prelude::*;

verus! {

/// The unique index of an instruction of a function.
pub type Instr = Idx<Instruction>;

/// An SSA instruction of the IR.
#[derive(Debug, PartialEq, Eq)]
pub enum Instruction {
    Call(CallInstr),
    CallIndirect(CallIndirectInstr),
    Const(ConstInstr),
    MemoryGrow(MemoryGrowInstr),
    MemorySize(MemorySizeInstr),
    Phi(PhiInstr),
    Load(LoadInstr),
    Store(StoreInstr),
    Select(SelectInstr),
    Reinterpret(ReinterpretInstr),
    Terminal(TerminalInstr),
    Int(IntInstr),
    Float(FloatInstr),
}

impl Instruction {
    /// Returns `true` if the instruction terminates a basic block.
    pub fn is_terminal(&self) -> (terminal: bool)
        ensures
            terminal == (*self is Terminal),
    {
        matches!(self, Instruction::Terminal(_))
    }

    /// Returns `true` if the instruction is a ϕ-instruction.
    pub fn is_phi(&self) -> (phi: bool)
        ensures
            phi == (*self is Phi),
    {
        matches!(self, Instruction::Phi(_))
    }

    /// Whether control can pass from the instruction to the block.
    pub open spec fn has_target(self, block: Block) -> bool {
        match self {
            Instruction::Terminal(instr) => instr.has_target(block),
            _ => false,
        }
    }

    /// The indices of the blocks that a ϕ-instruction has operands for; no
    /// index for any other instruction.
    pub open spec fn phi_blocks(self) -> Set<u32> {
        match self {
            Instruction::Phi(instr) => instr.operands@.dom(),
            _ => Set::empty(),
        }
    }

    /// The type of the value that the instruction produces, as far as the
    /// instruction itself tells it.
    ///
    /// Stores and terminal instructions produce no value; what a call
    /// produces is told by the type of the called function.
    pub open spec fn result_type(self) -> Option<Type> {
        match self {
            Instruction::Call(_) => None,
            Instruction::CallIndirect(_) => None,
            Instruction::Const(instr) => Some(instr.result_type()),
            Instruction::MemoryGrow(instr) => Some(instr.result_type()),
            Instruction::MemorySize(instr) => Some(instr.result_type()),
            Instruction::Phi(instr) => Some(instr.result_type()),
            Instruction::Load(instr) => Some(instr.result_type()),
            Instruction::Store(_) => None,
            Instruction::Select(instr) => Some(instr.result_type()),
            Instruction::Reinterpret(instr) => Some(instr.result_type()),
            Instruction::Terminal(_) => None,
            Instruction::Int(instr) => Some(instr.result_type()),
            Instruction::Float(instr) => Some(instr.result_type()),
        }
    }

    /// Returns the type of the value that the instruction produces, as far
    /// as the instruction itself tells it.
    pub fn ty(&self) -> (ty: Option<Type>)
        ensures
            ty == self.result_type(),
    {
        match self {
            Instruction::Call(_) => None,
            Instruction::CallIndirect(_) => None,
            Instruction::Const(instr) => Some(instr.ty()),
            Instruction::MemoryGrow(instr) => Some(instr.ty()),
            Instruction::MemorySize(instr) => Some(instr.ty()),
            Instruction::Phi(instr) => Some(instr.ty()),
            Instruction::Load(instr) => Some(instr.ty()),
            Instruction::Store(_) => None,
            Instruction::Select(instr) => Some(instr.ty()),
            Instruction::Reinterpret(instr) => Some(instr.ty()),
            Instruction::Terminal(_) => None,
            Instruction::Int(instr) => Some(instr.ty()),
            Instruction::Float(instr) => Some(instr.ty()),
        }
    }

    /// Whether the instruction uses the value.
    pub open spec fn uses(self, value: Value) -> bool {
        match self {
            Instruction::Call(instr) => instr.uses(value),
            Instruction::CallIndirect(instr) => instr.uses(value),
            Instruction::Const(instr) => instr.uses(value),
            Instruction::MemoryGrow(instr) => instr.uses(value),
            Instruction::MemorySize(instr) => instr.uses(value),
            Instruction::Phi(instr) => instr.uses(value),
            Instruction::Load(instr) => instr.uses(value),
            Instruction::Store(instr) => instr.uses(value),
            Instruction::Select(instr) => instr.uses(value),
            Instruction::Reinterpret(instr) => instr.uses(value),
            Instruction::Terminal(instr) => instr.uses(value),
            Instruction::Int(instr) => instr.uses(value),
            Instruction::Float(instr) => instr.uses(value),
        }
    }

    /// Whether `self` is `before` with every use of `replace` turned into `with`.
    pub open spec fn replaces(self, before: Self, replace: Value, with: Value) -> bool {
        match (self, before) {
            (Instruction::Call(after), Instruction::Call(instr)) => after.replaces(
                instr,
                replace,
                with,
            ),
            (Instruction::CallIndirect(after), Instruction::CallIndirect(instr)) => after.replaces(
                instr,
                replace,
                with,
            ),
            (Instruction::Const(after), Instruction::Const(instr)) => after.replaces(
                instr,
                replace,
                with,
            ),
            (Instruction::MemoryGrow(after), Instruction::MemoryGrow(instr)) => after.replaces(
                instr,
                replace,
                with,
            ),
            (Instruction::MemorySize(after), Instruction::MemorySize(instr)) => after.replaces(
                instr,
                replace,
                with,
            ),
            (Instruction::Phi(after), Instruction::Phi(instr)) => after.replaces(
                instr,
                replace,
                with,
            ),
            (Instruction::Load(after), Instruction::Load(instr)) => after.replaces(
                instr,
                replace,
                with,
            ),
            (Instruction::Store(after), Instruction::Store(instr)) => after.replaces(
                instr,
                replace,
                with,
            ),
            (Instruction::Select(after), Instruction::Select(instr)) => after.replaces(
                instr,
                replace,
                with,
            ),
            (Instruction::Reinterpret(after), Instruction::Reinterpret(instr)) => after.replaces(
                instr,
                replace,
                with,
            ),
            (Instruction::Terminal(after), Instruction::Terminal(instr)) => after.replaces(
                instr,
                replace,
                with,
            ),
            (Instruction::Int(after), Instruction::Int(instr)) => after.replaces(
                instr,
                replace,
                with,
            ),
            (Instruction::Float(after), Instruction::Float(instr)) => after.replaces(
                instr,
                replace,
                with,
            ),
            _ => false,
        }
    }

    /// Calls the visitor on the used values in textual order until it asks
    /// to stop.
    ///
    /// Returns `true` if the visitor asked to continue at every value.
    pub fn visit_values<F: Fn(Value) -> bool>(&self, visitor: &F) -> (completed: bool)
        requires
            forall|value: Value| self.uses(value) ==> #[trigger] visitor.requires((value,)),
        ensures
            completed ==> forall|value: Value|
                self.uses(value) ==> #[trigger] visitor.ensures((value,), true),
            !completed ==> exists|value: Value|
                self.uses(value) && #[trigger] visitor.ensures((value,), false),
    {
        match self {
            Instruction::Call(instr) => instr.visit_values(visitor),
            Instruction::CallIndirect(instr) => instr.visit_values(visitor),
            Instruction::Const(instr) => instr.visit_values(visitor),
            Instruction::MemoryGrow(instr) => instr.visit_values(visitor),
            Instruction::MemorySize(instr) => instr.visit_values(visitor),
            Instruction::Phi(instr) => instr.visit_values(visitor),
            Instruction::Load(instr) => instr.visit_values(visitor),
            Instruction::Store(instr) => instr.visit_values(visitor),
            Instruction::Select(instr) => instr.visit_values(visitor),
            Instruction::Reinterpret(instr) => instr.visit_values(visitor),
            Instruction::Terminal(instr) => instr.visit_values(visitor),
            Instruction::Int(instr) => instr.visit_values(visitor),
            Instruction::Float(instr) => instr.visit_values(visitor),
        }
    }

    /// Replaces every use of `replace` in the instruction by `with`.
    ///
    /// Returns `true` if a value has been replaced in the instruction.
    pub fn replace_value(&mut self, replace: Value, with: Value) -> (replaced: bool)
        ensures
            final(self).replaces(*old(self), replace, with),
            replaced == old(self).uses(replace),
    {
        match self {
            Instruction::Call(instr) => instr.replace_value(replace, with),
            Instruction::CallIndirect(instr) => instr.replace_value(replace, with),
            Instruction::Const(instr) => instr.replace_value(replace, with),
            Instruction::MemoryGrow(instr) => instr.replace_value(replace, with),
            Instruction::MemorySize(instr) => instr.replace_value(replace, with),
            Instruction::Phi(instr) => instr.replace_value(replace, with),
            Instruction::Load(instr) => instr.replace_value(replace, with),
            Instruction::Store(instr) => instr.replace_value(replace, with),
            Instruction::Select(instr) => instr.replace_value(replace, with),
            Instruction::Reinterpret(instr) => instr.replace_value(replace, with),
            Instruction::Terminal(instr) => instr.replace_value(replace, with),
            Instruction::Int(instr) => instr.replace_value(replace, with),
            Instruction::Float(instr) => instr.replace_value(replace, with),
        }
    }

    /// A replacement of values leaves the kind of the instruction, its
    /// targets and the type of its result as they are.
    pub proof fn lemma_replaces_keeps_shape(self, before: Self, replace: Value, with: Value)
        requires
            self.replaces(before, replace, with),
        ensures
            (self is Terminal) == (before is Terminal),
            (self is Phi) == (before is Phi),
            self.result_type() == before.result_type(),
            forall|block: Block| self.has_target(block) == before.has_target(block),
            self.phi_blocks() == before.phi_blocks(),
    {
        assert(self.phi_blocks() =~= before.phi_blocks());
    }

    /// An instruction that does not use a value is what it is after that
    /// value has been replaced.
    pub proof fn lemma_replaces_unused(self, replace: Value, with: Value)
        requires
            !self.uses(replace),
        ensures
            self.replaces(self, replace, with),
    {
        match self {
            Instruction::Call(instr) => {
                lemma_replace_in_all_unused(instr.params@, replace, with);
            },
            Instruction::CallIndirect(instr) => {
                lemma_replace_in_all_unused(instr.params@, replace, with);
            },
            Instruction::Phi(instr) => {
                assert forall|block: u32| instr.operands@.contains_key(block) implies replace_in(
                    instr.operands@[block],
                    replace,
                    with,
                ) == instr.operands@[block] by {
                    if instr.operands@[block] == replace {
                        assert(instr.operands.uses(replace));
                    }
                }
                assert(instr.operands@.map_values(
                    |value: Value| replace_in(value, replace, with),
                ) =~= instr.operands@);
            },
            Instruction::Terminal(instr) => {
                match instr {
                    TerminalInstr::TailCall(instr) => {
                        lemma_replace_in_all_unused(instr.params@, replace, with);
                    },
                    _ => {},
                }
            },
            _ => {},
        }
    }

    /// Replacing a value where none is left to replace changes nothing.
    pub proof fn lemma_replaces_twice(
        after: Self,
        middle: Self,
        before: Self,
        replace: Value,
        with: Value,
    )
        requires
            middle.replaces(before, replace, with),
            after.replaces(middle, replace, with),
            !middle.uses(replace),
        ensures
            after.replaces(before, replace, with),
    {
        match (middle, before) {
            (Instruction::Call(m), Instruction::Call(b)) => {
                lemma_replace_in_all_unused(m.params@, replace, with);
            },
            (Instruction::CallIndirect(m), Instruction::CallIndirect(b)) => {
                lemma_replace_in_all_unused(m.params@, replace, with);
            },
            (Instruction::Phi(m), Instruction::Phi(b)) => {
                if let Instruction::Phi(a) = after {
                    assert forall|block: u32| m.operands@.contains_key(block) implies replace_in(
                        m.operands@[block],
                        replace,
                        with,
                    ) == m.operands@[block] by {
                        if m.operands@[block] == replace {
                            assert(m.operands.uses(replace));
                        }
                    }
                    assert(a.operands@ =~= m.operands@);
                }
            },
            (Instruction::Terminal(m), Instruction::Terminal(b)) => {
                match (m, b) {
                    (TerminalInstr::TailCall(m), TerminalInstr::TailCall(b)) => {
                        lemma_replace_in_all_unused(m.params@, replace, with);
                    },
                    _ => {},
                }
            },
            _ => {},
        }
    }

    /// After a replacement the instruction uses a value exactly if it used
    /// it before and the value was not replaced, or if the value is the one
    /// that took the place of a value in use.
    pub proof fn lemma_replaces_uses(self, before: Self, replace: Value, with: Value)
        requires
            self.replaces(before, replace, with),
        ensures
            forall|value: Value|
                self.uses(value) <==> (before.uses(value) && value != replace) || (value == with
                    && before.uses(replace)),
    {
        assert forall|value: Value|
            self.uses(value) <==> (before.uses(value) && value != replace) || (value == with
                && before.uses(replace)) by {
            Self::lemma_replaces_uses_of(self, before, replace, with, value);
        }
    }

    proof fn lemma_replaces_uses_of(
        self,
        before: Self,
        replace: Value,
        with: Value,
        value: Value,
    )
        requires
            self.replaces(before, replace, with),
        ensures
            self.uses(value) <==> (before.uses(value) && value != replace) || (value == with
                && before.uses(replace)),
    {
        match (self, before) {
            (Instruction::Call(after), Instruction::Call(instr)) => {
                lemma_replace_in_all_contains(instr.params@, replace, with, value);
            },
            (Instruction::CallIndirect(after), Instruction::CallIndirect(instr)) => {
                lemma_replace_in_all_contains(instr.params@, replace, with, value);
            },
            (Instruction::Phi(after), Instruction::Phi(instr)) => {
                let f = |value: Value| replace_in(value, replace, with);
                if after.uses(value) {
                    let block = choose|block: u32| #[trigger]
                        after.operands@.contains_key(block) && after.operands@[block] == value;
                    assert(instr.operands@.contains_key(block));
                    assert(instr.operands.uses(instr.operands@[block]));
                }
                if instr.uses(value) && value != replace {
                    let block = choose|block: u32| #[trigger]
                        instr.operands@.contains_key(block) && instr.operands@[block] == value;
                    assert(after.operands@.contains_key(block) && after.operands@[block] == value);
                }
                if value == with && instr.uses(replace) {
                    let block = choose|block: u32| #[trigger]
                        instr.operands@.contains_key(block) && instr.operands@[block] == replace;
                    assert(after.operands@.contains_key(block) && after.operands@[block] == value);
                }
            },
            (Instruction::Terminal(after), Instruction::Terminal(instr)) => {
                match (after, instr) {
                    (TerminalInstr::TailCall(after), TerminalInstr::TailCall(instr)) => {
                        lemma_replace_in_all_contains(instr.params@, replace, with, value);
                    },
                    _ => {},
                }
            },
            _ => {},
        }
    }
}

impl Instruction {
    /// Whether the two instructions are of the same kind and the same in
    /// all their parts: nothing tells one from the other.
    pub open spec fn alike(self, other: Self) -> bool {
        match (self, other) {
            (Instruction::Call(a), Instruction::Call(b)) => a.alike(b),
            (Instruction::CallIndirect(a), Instruction::CallIndirect(b)) => a.alike(b),
            (Instruction::Phi(a), Instruction::Phi(b)) => a.alike(b),
            (Instruction::Terminal(a), Instruction::Terminal(b)) => a.alike(b),
            (Instruction::Call(_), _)
            | (Instruction::CallIndirect(_), _)
            | (Instruction::Phi(_), _)
            | (Instruction::Terminal(_), _) => false,
            _ => self == other,
        }
    }

    /// Instructions that are alike are of the same kind, have the same
    /// targets, produce the same type and use the same values.
    pub proof fn lemma_alike(self, other: Self)
        requires
            self.alike(other),
        ensures
            (self is Terminal) == (other is Terminal),
            (self is Phi) == (other is Phi),
            (self is Store) == (other is Store),
            self.result_type() == other.result_type(),
            self.phi_blocks() == other.phi_blocks(),
            forall|block: Block| self.has_target(block) == other.has_target(block),
            forall|value: Value| self.uses(value) == other.uses(value),
            forall|replace: Value, with: Value, after: Self| #[trigger]
                after.replaces(self, replace, with) == after.replaces(other, replace, with),
    {
    }
}

impl Clone for Instruction {
    fn clone(&self) -> (instr: Self)
        ensures
            instr.alike(*self),
    {
        match self {
            Instruction::Call(instr) => Instruction::Call(instr.clone()),
            Instruction::CallIndirect(instr) => Instruction::CallIndirect(instr.clone()),
            Instruction::Const(instr) => Instruction::Const(*instr),
            Instruction::MemoryGrow(instr) => Instruction::MemoryGrow(*instr),
            Instruction::MemorySize(instr) => Instruction::MemorySize(*instr),
            Instruction::Phi(instr) => Instruction::Phi(instr.clone()),
            Instruction::Load(instr) => Instruction::Load(*instr),
            Instruction::Store(instr) => Instruction::Store(*instr),
            Instruction::Select(instr) => Instruction::Select(*instr),
            Instruction::Reinterpret(instr) => Instruction::Reinterpret(*instr),
            Instruction::Terminal(instr) => Instruction::Terminal(instr.clone()),
            Instruction::Int(instr) => Instruction::Int(*instr),
            Instruction::Float(instr) => Instruction::Float(*instr),
        }
    }
}

} // verus!
