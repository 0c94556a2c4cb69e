//! The mathematical model of a function under construction, and what holds
//! of it after every operation of the builder.

use crate::builder::variable::VariableTable;
use crate::entity::index::Index32;
use crate::instruction::{Instr, Instruction};
use crate::primitive::{Block, Type, Value, Variable};
use vstd::prelude::*;

verus! {

/// Where an SSA value comes from.
#[derive(Debug, Copy, Clone, PartialEq, Eq)]
pub enum ValueAssoc {
    /// The value is the function parameter of the given position and is
    /// live in the entry block.
    Input(u32),
    /// The value is defined by the given instruction.
    Instr(Instr),
}

/// A basic block of a function under construction.
pub struct BlockModel {
    /// The blocks that branch to this block, ordered by index.
    pub preds: Seq<Block>,
    /// The ϕ-instructions at the head of the block.
    pub phis: Seq<Instr>,
    /// The other instructions of the block, in order.
    pub instrs: Seq<Instr>,
    /// Whether all predecessors of the block are known.
    pub sealed: bool,
    /// Whether the block has its terminal instruction.
    pub filled: bool,
    /// The ϕ-instructions that wait for the block to be sealed, each with
    /// the variable that it stands for and its value.
    pub incomplete_phis: Seq<(Variable, Value)>,
}

impl BlockModel {
    /// A block without predecessors and instructions, neither sealed nor filled.
    pub open spec fn empty() -> Self {
        BlockModel {
            preds: Seq::empty(),
            phis: Seq::empty(),
            instrs: Seq::empty(),
            sealed: false,
            filled: false,
            incomplete_phis: Seq::empty(),
        }
    }

    /// The instructions of the block in order: the ϕ-instructions first.
    pub open spec fn body(self) -> Seq<Instr> {
        self.phis + self.instrs
    }

    /// Whether the block is among the predecessors.
    pub open spec fn has_pred(self, block: Block) -> bool {
        self.preds.contains(block)
    }
}

/// Whether an instruction with the given index is among the instructions.
pub open spec fn has_index(instrs: Seq<Instr>, index: int) -> bool {
    exists|k: int| 0 <= k < instrs.len() && #[trigger] instrs[k].index() == index
}

/// The recorded users with the instruction added as a user of each of the
/// values, in order.
pub open spec fn record_users(
    users: Map<u32, Seq<Instr>>,
    values: Seq<Value>,
    instr: Instr,
) -> Map<u32, Seq<Instr>>
    decreases values.len(),
{
    if values.len() == 0 {
        users
    } else {
        let recorded = record_users(users, values.drop_last(), instr);
        let value = values.last().index();
        recorded.insert(
            value,
            if recorded.contains_key(value) {
                recorded[value].push(instr)
            } else {
                seq![instr]
            },
        )
    }
}

/// Every index below `u32::MAX` is the index of a block handle.
pub proof fn lemma_some_block(index: u32)
    ensures
        exists|block: Block| block.index() == index,
{
    let block = Block::at(index);
    Block::lemma_at(index);
    assert(block.index() == index);
}

/// A function under construction.
pub struct FunctionModel {
    /// The block that instructions are appended to.
    pub current: Block,
    /// The basic blocks, by index. The first is the entry block.
    pub blocks: Seq<BlockModel>,
    /// The instructions, by index.
    pub instrs: Seq<Instruction>,
    /// The value that an instruction defines, by the index of the instruction.
    pub instr_value: Map<u32, Value>,
    /// The type of every value, by index.
    pub value_type: Seq<Type>,
    /// The origin of every value, by index.
    pub value_assoc: Seq<ValueAssoc>,
    /// Instructions that may use a value, by the index of the value. Every
    /// instruction that uses the value is among them.
    pub value_users: Map<u32, Seq<Instr>>,
    /// The block of every ϕ-instruction that has all its operands and has not
    /// been found trivial, by the index of its value.
    pub phi_block: Map<u32, Block>,
    /// The variables of the source language and their definitions.
    pub vars: VariableTable,
    /// The types of the function parameters.
    pub inputs: Seq<Type>,
    /// The types of the function results.
    pub outputs: Seq<Type>,
}

impl FunctionModel {
    /// Whether the function has the block.
    pub open spec fn has_block(self, block: Block) -> bool {
        (block.index() as int) < self.blocks.len()
    }

    /// The block behind the handle.
    pub open spec fn block(self, block: Block) -> BlockModel {
        self.blocks[block.index() as int]
    }

    /// Whether the function has the instruction.
    pub open spec fn has_instr(self, instr: Instr) -> bool {
        (instr.index() as int) < self.instrs.len()
    }

    /// The instruction behind the handle.
    pub open spec fn instr(self, instr: Instr) -> Instruction {
        self.instrs[instr.index() as int]
    }

    /// Whether the function has the value.
    pub open spec fn has_value(self, value: Value) -> bool {
        (value.index() as int) < self.value_type.len()
    }

    /// The type of the value.
    pub open spec fn type_of(self, value: Value) -> Type {
        self.value_type[value.index() as int]
    }

    /// The origin of the value.
    pub open spec fn assoc(self, value: Value) -> ValueAssoc {
        self.value_assoc[value.index() as int]
    }

    /// The value that the instruction defines, if any.
    pub open spec fn value_of(self, instr: Instr) -> Option<Value> {
        self.instr_value.get(instr.index())
    }

    /// The instructions that are recorded as users of the value.
    pub open spec fn users(self, value: Value) -> Seq<Instr> {
        if self.value_users.contains_key(value.index()) {
            self.value_users[value.index()]
        } else {
            Seq::empty()
        }
    }

    /// The last instruction of the block that is not a ϕ-instruction.
    pub open spec fn last_of(self, block: Block) -> Instruction {
        self.instr(self.block(block).instrs.last())
    }

    /// Whether `from` ends in an instruction that can pass control to `to`.
    pub open spec fn branches(self, from: Block, to: Block) -> bool {
        self.block(from).filled && self.last_of(from).has_target(to)
    }

    /// Whether the value is that of a ϕ-instruction of the function.
    pub open spec fn is_phi_value(self, value: Value) -> bool {
        &&& self.has_value(value)
        &&& self.assoc(value) matches ValueAssoc::Instr(instr)
        &&& self.has_instr(instr)
        &&& self.instr(instr) is Phi
    }

    /// The operands of the ϕ-instruction with the given value, by the
    /// index of the predecessor that they flow from. No operand if the
    /// given value is not that of a ϕ-instruction.
    pub open spec fn operands_of(self, value: Value) -> Map<u32, Value> {
        if self.has_value(value) {
            match self.assoc(value) {
                ValueAssoc::Instr(instr) => match self.instr(instr) {
                    Instruction::Phi(phi) => phi.operands@,
                    _ => Map::empty(),
                },
                _ => Map::empty(),
            }
        } else {
            Map::empty()
        }
    }

    /// The values that the ϕ-instruction with the given value merges: its
    /// operands other than its own value. No value if the given value is
    /// not that of a ϕ-instruction.
    pub open spec fn phi_operands(self, value: Value) -> Set<Value> {
        if self.has_value(value) {
            match self.assoc(value) {
                ValueAssoc::Instr(instr) => match self.instr(instr) {
                    Instruction::Phi(phi) => phi.operands.foreign_operands(value),
                    _ => Set::empty(),
                },
                _ => Set::empty(),
            }
        } else {
            Set::empty()
        }
    }

    /// Whether the ϕ-instruction with the given value has no operand but
    /// its own value.
    pub open spec fn phi_merges_nothing(self, value: Value) -> bool {
        forall|operand: Value| !self.phi_operands(value).contains(operand)
    }

    /// Whether the ϕ-instruction with the given value merges at least two
    /// different values: it is not trivial.
    pub open spec fn phi_merges_several(self, value: Value) -> bool {
        exists|a: Value, b: Value|
            a != b && #[trigger] self.phi_operands(value).contains(a)
                && #[trigger] self.phi_operands(value).contains(b)
    }

    /// Every handle that the function holds is one of the function.
    pub open spec fn handles_wf(self) -> bool {
        &&& 1 <= self.blocks.len()
        &&& self.has_block(self.current)
        &&& self.value_type.len() == self.value_assoc.len()
        &&& forall|b: int, k: int|
            0 <= b < self.blocks.len() && 0 <= k < self.blocks[b].instrs.len() ==> self.has_instr(
                #[trigger] self.blocks[b].instrs[k],
            )
        &&& forall|b: int, k: int|
            0 <= b < self.blocks.len() && 0 <= k < self.blocks[b].phis.len() ==> self.has_instr(
                #[trigger] self.blocks[b].phis[k],
            )
        &&& forall|b: int, k: int|
            0 <= b < self.blocks.len() && 0 <= k < self.blocks[b].preds.len() ==> self.has_block(
                #[trigger] self.blocks[b].preds[k],
            )
        &&& forall|i: u32| #[trigger]
            self.instr_value.contains_key(i) ==> (i as int) < self.instrs.len() && self.has_value(
                self.instr_value[i],
            )
        &&& forall|v: int|
            0 <= v < self.value_assoc.len() ==> (#[trigger] self.value_assoc[v] matches ValueAssoc::Instr(
                instr,
            ) ==> self.has_instr(instr))
    }

    /// What holds of every single block: a filled block ends in its only
    /// terminal instruction and no other block holds one, the
    /// ϕ-instructions stand apart from the other instructions, and a sealed
    /// block waits for no ϕ-instruction.
    pub open spec fn block_wf(self, block: BlockModel) -> bool {
        &&& block.filled <==> (block.instrs.len() > 0 && self.instr(block.instrs.last()) is Terminal)
        &&& forall|k: int|
            0 <= k < block.instrs.len() - 1 ==> !(self.instr(#[trigger] block.instrs[k]) is Terminal)
        &&& forall|k: int|
            0 <= k < block.instrs.len() ==> !(self.instr(#[trigger] block.instrs[k]) is Phi)
        &&& forall|k: int| 0 <= k < block.phis.len() ==> self.instr(#[trigger] block.phis[k]) is Phi
        &&& block.sealed ==> block.incomplete_phis.len() == 0
        &&& forall|k: int|
            0 <= k < block.incomplete_phis.len() ==> self.vars.is_declared(
                (#[trigger] block.incomplete_phis[k]).0,
            ) && self.is_phi_value(block.incomplete_phis[k].1)
        &&& forall|i: int, j: int|
            0 <= i < j < block.preds.len() ==> (#[trigger] block.preds[i]).index() < (
            #[trigger] block.preds[j]).index()
    }

    /// Every block is well formed.
    pub open spec fn blocks_wf(self) -> bool {
        forall|b: int| 0 <= b < self.blocks.len() ==> self.block_wf(#[trigger] self.blocks[b])
    }

    /// A block is a predecessor of another exactly if it ends in an
    /// instruction that can pass control to the other.
    pub open spec fn preds_wf(self) -> bool {
        &&& forall|from: Block, to: Block|
            #![trigger self.block(to).has_pred(from)]
            #![trigger self.branches(from, to)]
            self.has_block(from) && self.has_block(to) ==> (self.block(to).has_pred(from)
                <==> self.branches(from, to))
        &&& forall|from: Block, to: Block| #[trigger]
            self.branches(from, to) && self.has_block(from) ==> self.has_block(to)
    }

    /// Instructions and the values that they define point at each other,
    /// and the type of such a value is the type that the instruction tells.
    pub open spec fn values_wf(self) -> bool {
        &&& forall|i: u32| #[trigger]
            self.instr_value.contains_key(i) ==> {
                &&& self.assoc(self.instr_value[i]) matches ValueAssoc::Instr(instr)
                &&& instr.index() == i
                &&& self.instrs[i as int].result_type() matches Some(ty) ==> self.type_of(
                    self.instr_value[i],
                ) == ty
                &&& !(self.instrs[i as int] is Terminal)
                &&& !(self.instrs[i as int] is Store)
            }
        &&& forall|v: int|
            0 <= v < self.value_assoc.len() ==> (#[trigger] self.value_assoc[v] matches ValueAssoc::Instr(
                instr,
            ) ==> self.instr_value.contains_key(instr.index()) && self.instr_value[instr.index()].index()
                == v)
    }

    /// Every instruction that uses a value is recorded as a user of the value.
    pub open spec fn users_wf(self) -> bool {
        forall|i: int, value: Value|
            0 <= i < self.instrs.len() && #[trigger] self.instrs[i].uses(value) ==> has_index(
                self.users(value),
                i,
            )
    }

    /// Every recorded complete ϕ-instruction is a ϕ-instruction of a block
    /// of the function.
    pub open spec fn phis_wf(self) -> bool {
        forall|v: u32| #[trigger]
            self.phi_block.contains_key(v) ==> {
                &&& (v as int) < self.value_assoc.len()
                &&& self.has_block(self.phi_block[v])
                &&& self.value_assoc[v as int] matches ValueAssoc::Instr(instr)
                &&& self.instr(instr) is Phi
            }
    }

    /// Every value that has a user recorded and every definition of a
    /// variable is a value of the function.
    pub open spec fn refs_wf(self) -> bool {
        &&& forall|v: u32| #[trigger]
            self.value_users.contains_key(v) ==> (v as int) < self.value_type.len()
        &&& forall|key: (u32, u32)| #[trigger]
            self.vars.defs.contains_key(key) ==> self.has_value(self.vars.defs[key])
    }

    /// What holds of a function under construction after every operation.
    pub open spec fn wf(self) -> bool {
        &&& self.handles_wf()
        &&& self.blocks_wf()
        &&& self.preds_wf()
        &&& self.values_wf()
        &&& self.users_wf()
        &&& self.phis_wf()
        &&& self.refs_wf()
        &&& self.phi_block.dom().finite()
    }
}

impl FunctionModel {
    /// The function with one more block, without predecessors and instructions.
    pub open spec fn with_block(self) -> Self {
        FunctionModel { blocks: self.blocks.push(BlockModel::empty()), ..self }
    }

    /// The function with the block as the one that instructions are appended to.
    pub open spec fn with_current(self, block: Block) -> Self {
        FunctionModel { current: block, ..self }
    }

    /// The function with the value written to the variable in the block.
    pub open spec fn with_def(self, var: Variable, block: Block, value: Value) -> Self {
        FunctionModel { vars: self.vars.written(var, block, value), ..self }
    }

    /// The function with one more parameter of the given type: a new value
    /// stands for it, and a new variable of that type is defined as that
    /// value in the entry block.
    pub open spec fn with_input(self, ty: Type) -> Self {
        FunctionModel {
            value_type: self.value_type.push(ty),
            value_assoc: self.value_assoc.push(ValueAssoc::Input(self.inputs.len() as u32)),
            inputs: self.inputs.push(ty),
            vars: self.vars.declared(1, ty).written(
                Variable::at(self.vars.types.len() as u32),
                Block::at(0),
                Value::at(self.value_type.len() as u32),
            ),
            ..self
        }
    }

    /// The function with one more parameter for each of the types, in order.
    pub open spec fn with_inputs(self, types: Seq<Type>) -> Self
        decreases types.len(),
    {
        if types.len() == 0 {
            self
        } else {
            self.with_inputs(types.drop_last()).with_input(types.last())
        }
    }

    /// The function with the given types of results.
    pub open spec fn with_outputs(self, types: Seq<Type>) -> Self {
        FunctionModel { outputs: types, ..self }
    }

    /// The function with `amount` more variables of the given type.
    pub open spec fn with_variables(self, amount: nat, ty: Type) -> Self {
        FunctionModel { vars: self.vars.declared(amount, ty), ..self }
    }

    /// Whether the function has an entry block without instructions and
    /// nothing else but values and variables.
    pub open spec fn is_empty_body(self) -> bool {
        &&& self.current.index() == 0
        &&& self.blocks == seq![BlockModel::empty()]
        &&& self.instrs == Seq::<Instruction>::empty()
    }

    /// A function with an entry block and nothing else.
    pub open spec fn is_initial(self) -> bool {
        &&& self.current.index() == 0
        &&& self.blocks == seq![BlockModel::empty()]
        &&& self.instrs == Seq::<Instruction>::empty()
        &&& self.instr_value == Map::<u32, Value>::empty()
        &&& self.value_type == Seq::<Type>::empty()
        &&& self.value_assoc == Seq::<ValueAssoc>::empty()
        &&& self.value_users == Map::<u32, Seq<Instr>>::empty()
        &&& self.phi_block == Map::<u32, Block>::empty()
        &&& self.vars.types == Seq::<Type>::empty()
        &&& self.vars.defs == Map::<(u32, u32), Value>::empty()
        &&& self.inputs == Seq::<Type>::empty()
        &&& self.outputs == Seq::<Type>::empty()
    }

    /// The function with the instruction recorded as a user of the value.
    pub open spec fn with_user(self, value: Value, instr: Instr) -> Self {
        FunctionModel {
            value_users: self.value_users.insert(value.index(), self.users(value).push(instr)),
            ..self
        }
    }

    /// The function with the instruction recorded as a user of each of the values.
    pub open spec fn with_users(self, values: Seq<Value>, instr: Instr) -> Self {
        FunctionModel { value_users: record_users(self.value_users, values, instr), ..self }
    }

    /// The function with the instruction at the end of the block, defining
    /// the value, which is of the given type.
    pub open spec fn with_value_instr(
        self,
        block: Block,
        instruction: Instruction,
        ty: Type,
        instr: Instr,
        value: Value,
    ) -> Self {
        FunctionModel {
            blocks: self.blocks.update(
                block.index() as int,
                BlockModel { instrs: self.block(block).instrs.push(instr), ..self.block(block) },
            ),
            instrs: self.instrs.push(instruction),
            instr_value: self.instr_value.insert(instr.index(), value),
            value_type: self.value_type.push(ty),
            value_assoc: self.value_assoc.push(ValueAssoc::Instr(instr)),
            ..self
        }
    }

    /// The handle of the block that is added next.
    pub open spec fn next_block(self) -> Block {
        Block::at(self.blocks.len() as u32)
    }

    /// The handle of the instruction that is added next.
    pub open spec fn next_instr(self) -> Instr {
        Instr::at(self.instrs.len() as u32)
    }

    /// The handle of the value that is added next.
    pub open spec fn next_value(self) -> Value {
        Value::at(self.value_type.len() as u32)
    }

    /// The function with the instruction at the end of the current block,
    /// defining a new value of the given type, and recorded as a user of
    /// each of the operands.
    pub open spec fn appended_value(
        self,
        instruction: Instruction,
        ty: Type,
        operands: Seq<Value>,
    ) -> Self {
        self.with_users(operands, self.next_instr()).with_value_instr(
            self.current,
            instruction,
            ty,
            self.next_instr(),
            self.next_value(),
        )
    }

    /// Whether `self` is `before` with the terminal instruction at the end
    /// of the current block, recorded as a user of each of the operands, and
    /// with the current block among the predecessors of every target of the
    /// instruction.
    pub open spec fn appends_terminal(
        self,
        before: Self,
        instruction: Instruction,
        operands: Seq<Value>,
    ) -> bool {
        self.terminates(
            before.with_users(operands, before.next_instr()),
            before.current,
            instruction,
            before.next_instr(),
        )
    }

    /// The function with the block sealed and waiting for no ϕ-instruction.
    pub open spec fn with_sealed(self, block: Block) -> Self {
        FunctionModel {
            blocks: self.blocks.update(
                block.index() as int,
                BlockModel { sealed: true, incomplete_phis: Seq::empty(), ..self.block(block) },
            ),
            ..self
        }
    }

    /// Whether the two instructions are of the same kind, with the same
    /// targets and the same type of result.
    pub open spec fn same_shape(before: Instruction, after: Instruction) -> bool {
        &&& (after is Terminal) == (before is Terminal)
        &&& (after is Phi) == (before is Phi)
        &&& (after is Store) == (before is Store)
        &&& after.result_type() == before.result_type()
        &&& forall|block: Block| after.has_target(block) == before.has_target(block)
    }

    /// Whether `self` differs from `before` at most in the current block,
    /// in the values that instructions use, in the recorded users, in the
    /// definitions of variables and in which ϕ-instructions are recorded as
    /// complete, of those that were.
    pub open spec fn same_structure(self, before: Self) -> bool {
        &&& self.has_block(self.current)
        &&& self.blocks == before.blocks
        &&& self.instrs.len() == before.instrs.len()
        &&& forall|i: int|
            0 <= i < self.instrs.len() ==> Self::same_shape(before.instrs[i], #[trigger] self.instrs[i])
        &&& self.instr_value == before.instr_value
        &&& self.value_type == before.value_type
        &&& self.value_assoc == before.value_assoc
        &&& self.vars.types == before.vars.types
        &&& forall|v: u32| #[trigger]
            self.phi_block.contains_key(v) ==> before.phi_block.contains_key(v)
                && self.phi_block[v] == before.phi_block[v]
        &&& self.phi_block.dom().finite()
    }

    /// A function that keeps the structure of a well-formed function and
    /// records the users of all values is well formed.
    pub proof fn lemma_same_structure(self, before: Self)
        requires
            before.wf(),
            self.same_structure(before),
            self.users_wf(),
            self.refs_wf(),
        ensures
            self.wf(),
    {
        assert forall|b: int| 0 <= b < self.blocks.len() implies self.block_wf(
            #[trigger] self.blocks[b],
        ) by {
            let block = self.blocks[b];
            assert(before.block_wf(before.blocks[b]));
            assert forall|k: int| 0 <= k < block.incomplete_phis.len() implies self.vars.is_declared(
                (#[trigger] block.incomplete_phis[k]).0,
            ) && self.is_phi_value(block.incomplete_phis[k].1) by {
                assert(before.vars.is_declared(block.incomplete_phis[k].0));
                assert(before.is_phi_value(block.incomplete_phis[k].1));
            }
            assert forall|k: int| 0 <= k < block.instrs.len() implies !(self.instr(
                #[trigger] block.instrs[k],
            ) is Phi) by {
                assert(before.has_instr(before.blocks[b].instrs[k]));
            }
            assert forall|k: int| 0 <= k < block.instrs.len() - 1 implies !(self.instr(
                #[trigger] block.instrs[k],
            ) is Terminal) by {
                assert(before.has_instr(before.blocks[b].instrs[k]));
            }
            assert forall|k: int| 0 <= k < block.phis.len() implies self.instr(
                #[trigger] block.phis[k],
            ) is Phi by {
                assert(before.has_instr(before.blocks[b].phis[k]));
            }
            if block.instrs.len() > 0 {
                assert(before.has_instr(before.blocks[b].instrs[block.instrs.len() - 1]));
            }
        }
        assert forall|from: Block, to: Block| self.has_block(from) implies self.branches(from, to)
            == before.branches(from, to) by {
            let block = self.blocks[from.index() as int];
            assert(before.block_wf(before.blocks[from.index() as int]));
            if block.filled {
                assert(before.has_instr(
                    before.blocks[from.index() as int].instrs[block.instrs.len() - 1],
                ));
            }
        }
        assert forall|from: Block, to: Block|
            #![trigger self.block(to).has_pred(from)]
            #![trigger self.branches(from, to)]
            self.has_block(from) && self.has_block(to) implies (self.block(to).has_pred(from)
            <==> self.branches(from, to)) by {
            assert(before.block(to).has_pred(from) <==> before.branches(from, to));
        }
        assert forall|from: Block, to: Block| #[trigger]
            self.branches(from, to) && self.has_block(from) implies self.has_block(to) by {
            assert(before.branches(from, to));
        }
        assert forall|v: u32| #[trigger] self.phi_block.contains_key(v) implies {
            &&& (v as int) < self.value_assoc.len()
            &&& self.has_block(self.phi_block[v])
            &&& self.value_assoc[v as int] matches ValueAssoc::Instr(instr)
            &&& self.instr(instr) is Phi
        } by {
            assert(before.phi_block.contains_key(v));
        }
    }

    /// Whether `self` is `before` with the terminal instruction at the end
    /// of the block, and with the block among the predecessors of every
    /// block that the instruction can pass control to.
    pub open spec fn terminates(
        self,
        before: Self,
        block: Block,
        instruction: Instruction,
        instr: Instr,
    ) -> bool {
        &&& self == (FunctionModel {
            blocks: self.blocks,
            instrs: before.instrs.push(instruction),
            ..before
        })
        &&& self.blocks.len() == before.blocks.len()
        &&& forall|b: int|
            0 <= b < self.blocks.len() ==> (#[trigger] self.blocks[b]) == (BlockModel {
                preds: self.blocks[b].preds,
                instrs: if b == block.index() {
                    before.blocks[b].instrs.push(instr)
                } else {
                    before.blocks[b].instrs
                },
                filled: b == block.index() || before.blocks[b].filled,
                ..before.blocks[b]
            })
        &&& forall|to: Block, from: Block|
            self.has_block(to) ==> (#[trigger] self.block(to).has_pred(from) <==> before.block(
                to,
            ).has_pred(from) || (from == block && instruction.has_target(to)))
        &&& forall|b: int, i: int, j: int|
            0 <= b < self.blocks.len() && 0 <= i < j < self.blocks[b].preds.len() ==> (
            #[trigger] self.blocks[b].preds[i]).index() < (#[trigger] self.blocks[b].preds[j]).index()
    }

    /// A terminal instruction at the end of an unfilled block keeps the
    /// function well formed, if the block becomes a predecessor of the
    /// targets of the instruction.
    pub proof fn lemma_terminates(
        self,
        before: Self,
        block: Block,
        instruction: Instruction,
        instr: Instr,
    )
        requires
            before.wf(),
            before.has_block(block),
            !before.block(block).filled,
            instruction is Terminal,
            instr.index() == before.instrs.len(),
            forall|to: Block| instruction.has_target(to) ==> before.has_block(to),
            forall|value: Value| #[trigger]
                instruction.uses(value) ==> has_index(before.users(value), instr.index() as int),
            self.terminates(before, block, instruction, instr),
        ensures
            self.wf(),
    {
        assert forall|b: int| 0 <= b < self.blocks.len() implies self.block_wf(
            #[trigger] self.blocks[b],
        ) by {
            let data = self.blocks[b];
            assert(before.block_wf(before.blocks[b]));
            assert forall|k: int| 0 <= k < data.incomplete_phis.len() implies self.vars.is_declared(
                (#[trigger] data.incomplete_phis[k]).0,
            ) && self.is_phi_value(data.incomplete_phis[k].1) by {
                assert(before.vars.is_declared(before.blocks[b].incomplete_phis[k].0));
                assert(before.is_phi_value(before.blocks[b].incomplete_phis[k].1));
            }
            assert forall|k: int| 0 <= k < data.phis.len() implies self.instr(
                #[trigger] data.phis[k],
            ) is Phi by {
                assert(before.has_instr(before.blocks[b].phis[k]));
            }
            assert forall|k: int| 0 <= k < data.instrs.len() implies !(self.instr(
                #[trigger] data.instrs[k],
            ) is Phi) by {
                if k < before.blocks[b].instrs.len() {
                    assert(before.has_instr(before.blocks[b].instrs[k]));
                }
            }
            assert forall|k: int| 0 <= k < data.instrs.len() - 1 implies !(self.instr(
                #[trigger] data.instrs[k],
            ) is Terminal) by {
                assert(before.has_instr(before.blocks[b].instrs[k]));
                if b == block.index() {
                    if k == before.blocks[b].instrs.len() - 1 {
                        assert(!before.blocks[b].filled);
                    }
                }
            }
            if b != block.index() && data.instrs.len() > 0 {
                assert(before.has_instr(before.blocks[b].instrs[data.instrs.len() - 1]));
            }
        }
        assert forall|from: Block, to: Block| self.has_block(from) implies self.branches(from, to)
            == (before.branches(from, to) || (from == block && instruction.has_target(to))) by {
            let data = self.blocks[from.index() as int];
            assert(before.block_wf(before.blocks[from.index() as int]));
            if from.index() == block.index() {
                Block::lemma_index_injective(from, block);
                assert(data.instrs.last() == instr);
            } else {
                if data.filled {
                    assert(before.has_instr(
                        before.blocks[from.index() as int].instrs[data.instrs.len() - 1],
                    ));
                }
            }
        }
        assert forall|from: Block, to: Block|
            #![trigger self.block(to).has_pred(from)]
            #![trigger self.branches(from, to)]
            self.has_block(from) && self.has_block(to) implies (self.block(to).has_pred(from)
            <==> self.branches(from, to)) by {
            assert(before.block(to).has_pred(from) <==> before.branches(from, to));
        }
        assert forall|from: Block, to: Block| #[trigger]
            self.branches(from, to) && self.has_block(from) implies self.has_block(to) by {
            if before.branches(from, to) {
            }
        }
        assert forall|i: int, value: Value|
            0 <= i < self.instrs.len() && #[trigger] self.instrs[i].uses(value) implies has_index(
            self.users(value),
            i,
        ) by {
            if i < before.instrs.len() {
                assert(before.instrs[i].uses(value));
            }
        }
        assert forall|b: int, k: int|
            0 <= b < self.blocks.len() && 0 <= k < self.blocks[b].preds.len() implies self.has_block(
            #[trigger] self.blocks[b].preds[k],
        ) by {
            let to_raw = b as u32;
            let from = self.blocks[b].preds[k];
            assert(self.blocks[b].preds.contains(from));
            if !self.has_block(from) {
                // Every predecessor is the block or was one before.
                assert(exists|to: Block| to.index() == to_raw) by {
                    let to = self.current;
                    assert(self.has_block(to));
                    lemma_some_block(to_raw);
                }
                let to = choose|to: Block| to.index() == to_raw;
                assert(self.block(to).has_pred(from));
                assert(before.block(to).has_pred(from));
                let j = choose|j: int|
                    0 <= j < before.block(to).preds.len() && before.block(to).preds[j] == from;
                assert(before.has_block(before.blocks[b].preds[j]));
            }
        }
        assert forall|b: int, k: int|
            0 <= b < self.blocks.len() && 0 <= k < self.blocks[b].instrs.len() implies self.has_instr(
            #[trigger] self.blocks[b].instrs[k],
        ) by {
            if k < before.blocks[b].instrs.len() {
                assert(before.has_instr(before.blocks[b].instrs[k]));
            }
        }
        assert forall|b: int, k: int|
            0 <= b < self.blocks.len() && 0 <= k < self.blocks[b].phis.len() implies self.has_instr(
            #[trigger] self.blocks[b].phis[k],
        ) by {
            assert(before.has_instr(before.blocks[b].phis[k]));
        }
        assert forall|v: u32| #[trigger] self.phi_block.contains_key(v) implies {
            &&& (v as int) < self.value_assoc.len()
            &&& self.has_block(self.phi_block[v])
            &&& self.value_assoc[v as int] matches ValueAssoc::Instr(instr)
            &&& self.instr(instr) is Phi
        } by {
            assert(before.phi_block.contains_key(v));
        }
    }

    /// A function with an entry block and nothing else is well formed.
    pub proof fn lemma_initial(self)
        requires
            self.is_initial(),
        ensures
            self.wf(),
    {
        assert(self.phi_block.dom() =~= Set::<u32>::empty());
        assert forall|from: Block, to: Block|
            #![trigger self.block(to).has_pred(from)]
            #![trigger self.branches(from, to)]
            self.has_block(from) && self.has_block(to) implies (self.block(to).has_pred(from)
            <==> self.branches(from, to)) by {
            assert(self.blocks[0].preds.len() == 0);
        }
    }

    /// Whether `self` is `before` with more values, more declared variables
    /// and more definitions, and is the same otherwise.
    pub open spec fn same_code(self, before: Self) -> bool {
        &&& self.current == before.current
        &&& self.blocks == before.blocks
        &&& self.instrs == before.instrs
        &&& self.instr_value == before.instr_value
        &&& before.value_type.len() <= self.value_type.len()
        &&& self.value_type.len() == self.value_assoc.len()
        &&& forall|v: int|
            0 <= v < before.value_type.len() ==> #[trigger] self.value_assoc[v]
                == before.value_assoc[v] && self.value_type[v] == before.value_type[v]
        &&& forall|v: int|
            before.value_type.len() <= v < self.value_type.len() ==> #[trigger] self.value_assoc[v]
                is Input
        &&& self.value_users == before.value_users
        &&& self.phi_block == before.phi_block
        &&& before.vars.types.len() <= self.vars.types.len()
    }

    /// More values that stand for function parameters, more variables and
    /// more definitions keep the function well formed.
    pub proof fn lemma_same_code(self, before: Self)
        requires
            before.wf(),
            self.same_code(before),
            self.refs_wf(),
        ensures
            self.wf(),
    {
        assert forall|b: int| 0 <= b < self.blocks.len() implies self.block_wf(
            #[trigger] self.blocks[b],
        ) by {
            let block = self.blocks[b];
            assert(before.block_wf(before.blocks[b]));
            assert forall|k: int| 0 <= k < block.incomplete_phis.len() implies self.vars.is_declared(
                (#[trigger] block.incomplete_phis[k]).0,
            ) && self.is_phi_value(block.incomplete_phis[k].1) by {
                assert(before.vars.is_declared(block.incomplete_phis[k].0));
                assert(before.is_phi_value(block.incomplete_phis[k].1));
            }
        }
        assert forall|from: Block, to: Block|
            #![trigger self.block(to).has_pred(from)]
            #![trigger self.branches(from, to)]
            self.has_block(from) && self.has_block(to) implies (self.block(to).has_pred(from)
            <==> self.branches(from, to)) by {
            assert(before.block(to).has_pred(from) <==> before.branches(from, to));
        }
        assert forall|from: Block, to: Block| #[trigger]
            self.branches(from, to) && self.has_block(from) implies self.has_block(to) by {
            assert(before.branches(from, to));
        }
        assert forall|i: int, value: Value|
            0 <= i < self.instrs.len() && #[trigger] self.instrs[i].uses(value) implies has_index(
            self.users(value),
            i,
        ) by {
            assert(self.users(value) == before.users(value));
        }
        assert forall|i: u32| #[trigger] self.instr_value.contains_key(i) implies {
            &&& self.assoc(self.instr_value[i]) matches ValueAssoc::Instr(instr)
            &&& instr.index() == i
            &&& self.instrs[i as int].result_type() matches Some(ty) ==> self.type_of(
                self.instr_value[i],
            ) == ty
            &&& !(self.instrs[i as int] is Terminal)
            &&& !(self.instrs[i as int] is Store)
        } by {
            assert(before.instr_value.contains_key(i));
            assert(before.has_value(before.instr_value[i]));
        }
        assert forall|v: u32| #[trigger] self.phi_block.contains_key(v) implies {
            &&& (v as int) < self.value_assoc.len()
            &&& self.has_block(self.phi_block[v])
            &&& self.value_assoc[v as int] matches ValueAssoc::Instr(instr)
            &&& self.instr(instr) is Phi
        } by {
            assert(before.phi_block.contains_key(v));
        }
    }

    /// Recording an instruction as a user of values keeps the function well
    /// formed and the users that were recorded.
    pub proof fn lemma_with_users(self, values: Seq<Value>, instr: Instr)
        requires
            self.wf(),
            forall|k: int| 0 <= k < values.len() ==> self.has_value(#[trigger] values[k]),
        ensures
            self.with_users(values, instr).wf(),
            forall|value: Value|
                values.contains(value) ==> #[trigger] has_index(
                    self.with_users(values, instr).users(value),
                    instr.index() as int,
                ),
            forall|other: Value, i: int|
                has_index(self.users(other), i) ==> #[trigger] has_index(
                    self.with_users(values, instr).users(other),
                    i,
                ),
        decreases values.len(),
    {
        if values.len() == 0 {
            assert(self.with_users(values, instr) == self);
        } else {
            let inner = self.with_users(values.drop_last(), instr);
            assert forall|k: int| 0 <= k < values.drop_last().len() implies self.has_value(
                #[trigger] values.drop_last()[k],
            ) by {
                assert(self.has_value(values[k]));
            }
            self.lemma_with_users(values.drop_last(), instr);
            assert(self.has_value(values[values.len() - 1]));
            inner.lemma_with_user(values.last(), instr);
            let after = self.with_users(values, instr);
            assert(seq![instr] =~= Seq::<Instr>::empty().push(instr));
            assert(after == inner.with_user(values.last(), instr));
            assert forall|value: Value| values.contains(value) implies #[trigger] has_index(
                after.users(value),
                instr.index() as int,
            ) by {
                let k = choose|k: int| 0 <= k < values.len() && values[k] == value;
                if k < values.len() - 1 {
                    assert(values.drop_last()[k] == value);
                    assert(values.drop_last().contains(value));
                    assert(has_index(inner.users(value), instr.index() as int));
                }
            }
            assert forall|other: Value, i: int| has_index(self.users(other), i) implies #[trigger] has_index(
                after.users(other),
                i,
            ) by {
                assert(has_index(inner.users(other), i));
            }
        }
    }

    /// An instruction that defines a value, at the end of an unfilled block,
    /// keeps the function well formed.
    pub proof fn lemma_with_value_instr(
        self,
        block: Block,
        instruction: Instruction,
        ty: Type,
        instr: Instr,
        value: Value,
    )
        requires
            self.wf(),
            self.has_block(block),
            !self.block(block).filled,
            !(instruction is Terminal),
            !(instruction is Phi),
            !(instruction is Store),
            instruction.result_type() matches Some(told) ==> told == ty,
            instr.index() == self.instrs.len(),
            value.index() == self.value_type.len(),
            forall|used: Value| #[trigger]
                instruction.uses(used) ==> has_index(self.users(used), instr.index() as int),
        ensures
            self.with_value_instr(block, instruction, ty, instr, value).wf(),
    {
        let after = self.with_value_instr(block, instruction, ty, instr, value);
        assert forall|b: int| 0 <= b < after.blocks.len() implies after.block_wf(
            #[trigger] after.blocks[b],
        ) by {
            let data = after.blocks[b];
            assert(self.block_wf(self.blocks[b]));
            assert forall|k: int| 0 <= k < data.incomplete_phis.len() implies after.vars.is_declared(
                (#[trigger] data.incomplete_phis[k]).0,
            ) && after.is_phi_value(data.incomplete_phis[k].1) by {
                assert(self.vars.is_declared(self.blocks[b].incomplete_phis[k].0));
                assert(self.is_phi_value(self.blocks[b].incomplete_phis[k].1));
            }
            assert forall|k: int| 0 <= k < data.phis.len() implies after.instr(
                #[trigger] data.phis[k],
            ) is Phi by {
                assert(self.has_instr(self.blocks[b].phis[k]));
            }
            assert forall|k: int| 0 <= k < data.instrs.len() implies !(after.instr(
                #[trigger] data.instrs[k],
            ) is Phi) by {
                if k < self.blocks[b].instrs.len() {
                    assert(self.has_instr(self.blocks[b].instrs[k]));
                }
            }
            assert forall|k: int| 0 <= k < data.instrs.len() - 1 implies !(after.instr(
                #[trigger] data.instrs[k],
            ) is Terminal) by {
                assert(self.has_instr(self.blocks[b].instrs[k]));
            }
            if b != block.index() && data.instrs.len() > 0 {
                assert(self.has_instr(self.blocks[b].instrs[data.instrs.len() - 1]));
            }
        }
        assert forall|from: Block, to: Block| after.has_block(from) implies after.branches(
            from,
            to,
        ) == self.branches(from, to) by {
            let data = after.blocks[from.index() as int];
            assert(self.block_wf(self.blocks[from.index() as int]));
            if from.index() != block.index() {
                if data.filled {
                    assert(self.has_instr(
                        self.blocks[from.index() as int].instrs[data.instrs.len() - 1],
                    ));
                }
            }
        }
        assert forall|from: Block, to: Block|
            #![trigger after.block(to).has_pred(from)]
            #![trigger after.branches(from, to)]
            after.has_block(from) && after.has_block(to) implies (after.block(to).has_pred(from)
            <==> after.branches(from, to)) by {
            assert(self.block(to).has_pred(from) <==> self.branches(from, to));
        }
        assert forall|from: Block, to: Block| #[trigger]
            after.branches(from, to) && after.has_block(from) implies after.has_block(to) by {
            assert(self.branches(from, to));
        }
        assert forall|i: int, used: Value|
            0 <= i < after.instrs.len() && #[trigger] after.instrs[i].uses(used) implies has_index(
            after.users(used),
            i,
        ) by {
            if i < self.instrs.len() {
                assert(self.instrs[i].uses(used));
            }
        }
        assert forall|b: int, k: int|
            0 <= b < after.blocks.len() && 0 <= k < after.blocks[b].instrs.len() implies after.has_instr(
            #[trigger] after.blocks[b].instrs[k],
        ) by {
            if k < self.blocks[b].instrs.len() {
                assert(self.has_instr(self.blocks[b].instrs[k]));
            }
        }
        assert forall|b: int, k: int|
            0 <= b < after.blocks.len() && 0 <= k < after.blocks[b].phis.len() implies after.has_instr(
            #[trigger] after.blocks[b].phis[k],
        ) by {
            assert(self.has_instr(self.blocks[b].phis[k]));
        }
        assert forall|b: int, k: int|
            0 <= b < after.blocks.len() && 0 <= k < after.blocks[b].preds.len() implies after.has_block(
            #[trigger] after.blocks[b].preds[k],
        ) by {
            assert(self.has_block(self.blocks[b].preds[k]));
        }
        assert forall|i: u32| #[trigger] after.instr_value.contains_key(i) implies {
            &&& (i as int) < after.instrs.len()
            &&& after.has_value(after.instr_value[i])
            &&& after.assoc(after.instr_value[i]) matches ValueAssoc::Instr(defining)
            &&& defining.index() == i
            &&& after.instrs[i as int].result_type() matches Some(told) ==> after.type_of(
                after.instr_value[i],
            ) == told
            &&& !(after.instrs[i as int] is Terminal)
            &&& !(after.instrs[i as int] is Store)
        } by {
            if i != instr.index() {
                assert(self.instr_value.contains_key(i));
                assert(self.has_value(self.instr_value[i]));
            }
        }
        assert forall|v: int| 0 <= v < after.value_assoc.len() implies (
        #[trigger] after.value_assoc[v] matches ValueAssoc::Instr(defining) ==> after.has_instr(
            defining,
        ) && after.instr_value.contains_key(defining.index())
            && after.instr_value[defining.index()].index() == v) by {
            if v < self.value_assoc.len() {
                if let ValueAssoc::Instr(defining) = self.value_assoc[v] {
                    assert(self.has_instr(defining));
                    assert(self.instr_value.contains_key(defining.index()));
                }
            }
        }
        assert forall|v: u32| #[trigger] after.phi_block.contains_key(v) implies {
            &&& (v as int) < after.value_assoc.len()
            &&& after.has_block(after.phi_block[v])
            &&& after.value_assoc[v as int] matches ValueAssoc::Instr(defining)
            &&& after.instr(defining) is Phi
        } by {
            assert(self.phi_block.contains_key(v));
            if let ValueAssoc::Instr(defining) = self.value_assoc[v as int] {
                assert(self.has_instr(defining));
            }
        }
    }

    /// Sealing a block keeps the function well formed.
    pub proof fn lemma_with_sealed(self, block: Block)
        requires
            self.wf(),
            self.has_block(block),
        ensures
            self.with_sealed(block).wf(),
    {
        let after = self.with_sealed(block);
        assert forall|b: int| 0 <= b < after.blocks.len() implies after.block_wf(
            #[trigger] after.blocks[b],
        ) by {
            let data = after.blocks[b];
            assert(self.block_wf(self.blocks[b]));
            assert forall|k: int| 0 <= k < data.incomplete_phis.len() implies after.vars.is_declared(
                (#[trigger] data.incomplete_phis[k]).0,
            ) && after.is_phi_value(data.incomplete_phis[k].1) by {
                assert(self.vars.is_declared(self.blocks[b].incomplete_phis[k].0));
                assert(self.is_phi_value(self.blocks[b].incomplete_phis[k].1));
            }
        }
        assert forall|from: Block, to: Block| after.has_block(from) implies after.branches(
            from,
            to,
        ) == self.branches(from, to) by {}
        assert forall|from: Block, to: Block|
            #![trigger after.block(to).has_pred(from)]
            #![trigger after.branches(from, to)]
            after.has_block(from) && after.has_block(to) implies (after.block(to).has_pred(from)
            <==> after.branches(from, to)) by {
            assert(self.block(to).has_pred(from) <==> self.branches(from, to));
        }
        assert forall|from: Block, to: Block| #[trigger]
            after.branches(from, to) && after.has_block(from) implies after.has_block(to) by {
            assert(self.branches(from, to));
        }
        assert forall|i: int, value: Value|
            0 <= i < after.instrs.len() && #[trigger] after.instrs[i].uses(value) implies has_index(
            after.users(value),
            i,
        ) by {
            assert(self.users(value) == after.users(value));
        }
        assert forall|b: int, k: int|
            0 <= b < after.blocks.len() && 0 <= k < after.blocks[b].instrs.len() implies after.has_instr(
            #[trigger] after.blocks[b].instrs[k],
        ) by {
            assert(self.has_instr(self.blocks[b].instrs[k]));
        }
        assert forall|b: int, k: int|
            0 <= b < after.blocks.len() && 0 <= k < after.blocks[b].phis.len() implies after.has_instr(
            #[trigger] after.blocks[b].phis[k],
        ) by {
            assert(self.has_instr(self.blocks[b].phis[k]));
        }
        assert forall|b: int, k: int|
            0 <= b < after.blocks.len() && 0 <= k < after.blocks[b].preds.len() implies after.has_block(
            #[trigger] after.blocks[b].preds[k],
        ) by {
            assert(self.has_block(self.blocks[b].preds[k]));
        }
    }

    /// A new block keeps the function well formed.
    pub proof fn lemma_with_block(self)
        requires
            self.wf(),
        ensures
            self.with_block().wf(),
    {
        let after = self.with_block();
        assert forall|b: int| 0 <= b < after.blocks.len() implies after.block_wf(
            #[trigger] after.blocks[b],
        ) by {
            if b < self.blocks.len() {
                assert(self.block_wf(self.blocks[b]));
            }
        }
        assert forall|from: Block, to: Block|
            #![trigger after.block(to).has_pred(from)]
            #![trigger after.branches(from, to)]
            after.has_block(from) && after.has_block(to) implies (after.block(to).has_pred(from)
            <==> after.branches(from, to)) by {
            if self.has_block(from) {
                assert(after.branches(from, to) == self.branches(from, to));
                if self.has_block(to) {
                    assert(after.block(to) == self.block(to));
                    assert(self.block(to).has_pred(from) <==> self.branches(from, to));
                } else {
                    if self.branches(from, to) {
                        assert(self.has_block(to));
                    }
                }
            } else {
                assert(!after.block(from).filled);
                if self.has_block(to) {
                    assert(after.block(to) == self.block(to));
                    if self.block(to).has_pred(from) {
                        let k = choose|k: int|
                            0 <= k < self.block(to).preds.len() && self.block(to).preds[k] == from;
                        assert(self.has_block(self.blocks[to.index() as int].preds[k]));
                    }
                }
            }
        }
        assert forall|from: Block, to: Block| #[trigger]
            after.branches(from, to) && after.has_block(from) implies after.has_block(to) by {
            if self.has_block(from) {
                assert(self.branches(from, to));
            }
        }
    }

    /// Another current block keeps the function well formed.
    pub proof fn lemma_with_current(self, block: Block)
        requires
            self.wf(),
            self.has_block(block),
        ensures
            self.with_current(block).wf(),
    {
        let after = self.with_current(block);
        assert forall|b: int| 0 <= b < after.blocks.len() implies after.block_wf(
            #[trigger] after.blocks[b],
        ) by {
            assert(self.block_wf(self.blocks[b]));
        }
        assert forall|from: Block, to: Block|
            #![trigger after.block(to).has_pred(from)]
            #![trigger after.branches(from, to)]
            after.has_block(from) && after.has_block(to) implies (after.block(to).has_pred(from)
            <==> after.branches(from, to)) by {
            assert(self.block(to).has_pred(from) <==> self.branches(from, to));
        }
        assert forall|from: Block, to: Block| #[trigger]
            after.branches(from, to) && after.has_block(from) implies after.has_block(to) by {
            assert(self.branches(from, to));
        }
        assert forall|i: int, value: Value|
            0 <= i < after.instrs.len() && #[trigger] after.instrs[i].uses(value) implies has_index(
            after.users(value),
            i,
        ) by {
            assert(self.users(value) == after.users(value));
        }
    }

    /// A definition of a declared variable keeps the function well formed.
    pub proof fn lemma_with_def(self, var: Variable, block: Block, value: Value)
        requires
            self.wf(),
            self.has_value(value),
        ensures
            self.with_def(var, block, value).wf(),
    {
        let after = self.with_def(var, block, value);
        assert forall|b: int| 0 <= b < after.blocks.len() implies after.block_wf(
            #[trigger] after.blocks[b],
        ) by {
            assert(self.block_wf(self.blocks[b]));
            assert forall|k: int| 0 <= k < after.blocks[b].incomplete_phis.len() implies after.vars.is_declared(
                (#[trigger] after.blocks[b].incomplete_phis[k]).0,
            ) && after.is_phi_value(after.blocks[b].incomplete_phis[k].1) by {
                assert(self.vars.is_declared(self.blocks[b].incomplete_phis[k].0));
                assert(self.is_phi_value(self.blocks[b].incomplete_phis[k].1));
            }
        }
        assert forall|from: Block, to: Block|
            #![trigger after.block(to).has_pred(from)]
            #![trigger after.branches(from, to)]
            after.has_block(from) && after.has_block(to) implies (after.block(to).has_pred(from)
            <==> after.branches(from, to)) by {
            assert(self.block(to).has_pred(from) <==> self.branches(from, to));
        }
        assert forall|from: Block, to: Block| #[trigger]
            after.branches(from, to) && after.has_block(from) implies after.has_block(to) by {
            assert(self.branches(from, to));
        }
        assert forall|i: int, value: Value|
            0 <= i < after.instrs.len() && #[trigger] after.instrs[i].uses(value) implies has_index(
            after.users(value),
            i,
        ) by {
            assert(self.users(value) == after.users(value));
        }
    }

    /// Another recorded user keeps the function well formed.
    pub proof fn lemma_with_user(self, value: Value, instr: Instr)
        requires
            self.wf(),
            self.has_value(value),
        ensures
            self.with_user(value, instr).wf(),
            has_index(self.with_user(value, instr).users(value), instr.index() as int),
            forall|other: Value, i: int|
                has_index(self.users(other), i) ==> #[trigger] has_index(
                    self.with_user(value, instr).users(other),
                    i,
                ),
    {
        let after = self.with_user(value, instr);
        assert forall|other: Value, i: int| has_index(self.users(other), i) implies #[trigger] has_index(
            after.users(other),
            i,
        ) by {
            let k = choose|k: int|
                0 <= k < self.users(other).len() && #[trigger] self.users(other)[k].index() == i;
            if other.index() == value.index() {
                assert(after.users(other)[k].index() == i);
            } else {
                assert(after.users(other)[k].index() == i);
            }
        }
        assert(after.users(value)[self.users(value).len() as int].index() == instr.index());
        assert forall|b: int| 0 <= b < after.blocks.len() implies after.block_wf(
            #[trigger] after.blocks[b],
        ) by {
            assert(self.block_wf(self.blocks[b]));
            assert forall|k: int| 0 <= k < after.blocks[b].incomplete_phis.len() implies after.vars.is_declared(
                (#[trigger] after.blocks[b].incomplete_phis[k]).0,
            ) && after.is_phi_value(after.blocks[b].incomplete_phis[k].1) by {
                assert(self.vars.is_declared(self.blocks[b].incomplete_phis[k].0));
                assert(self.is_phi_value(self.blocks[b].incomplete_phis[k].1));
            }
        }
        assert forall|from: Block, to: Block|
            #![trigger after.block(to).has_pred(from)]
            #![trigger after.branches(from, to)]
            after.has_block(from) && after.has_block(to) implies (after.block(to).has_pred(from)
            <==> after.branches(from, to)) by {
            assert(self.block(to).has_pred(from) <==> self.branches(from, to));
        }
        assert forall|from: Block, to: Block| #[trigger]
            after.branches(from, to) && after.has_block(from) implies after.has_block(to) by {
            assert(self.branches(from, to));
        }
        assert forall|i: int, used: Value|
            0 <= i < after.instrs.len() && #[trigger] after.instrs[i].uses(used) implies has_index(
            after.users(used),
            i,
        ) by {
            assert(has_index(self.users(used), i));
        }
    }
}

impl FunctionModel {
    /// Whether the two functions are the same, with instructions that are
    /// alike.
    pub open spec fn alike(self, other: Self) -> bool {
        &&& self.instrs.len() == other.instrs.len()
        &&& forall|i: int|
            0 <= i < self.instrs.len() ==> (#[trigger] self.instrs[i]).alike(other.instrs[i])
        &&& self == (FunctionModel { instrs: self.instrs, ..other })
    }

    /// A function that is like a well-formed function is well formed.
    pub proof fn lemma_alike(self, other: Self)
        requires
            other.wf(),
            self.alike(other),
        ensures
            self.wf(),
            self.same_structure(other),
    {
        assert forall|i: int| 0 <= i < self.instrs.len() implies Self::same_shape(
            other.instrs[i],
            #[trigger] self.instrs[i],
        ) by {
            self.instrs[i].lemma_alike(other.instrs[i]);
        }
        assert forall|i: int, value: Value|
            0 <= i < self.instrs.len() && #[trigger] self.instrs[i].uses(value) implies has_index(
            self.users(value),
            i,
        ) by {
            self.instrs[i].lemma_alike(other.instrs[i]);
            assert(other.instrs[i].uses(value));
        }
        self.lemma_same_structure(other);
    }
}

} // verus!
