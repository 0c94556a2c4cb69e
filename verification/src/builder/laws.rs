//! What holds of every function under construction and of every finished
//! function, stated for single blocks, instructions and values.

use crate::builder::model::{FunctionModel, ValueAssoc};
use crate::entity::index::Index32;
use crate::instruction::phi::block_indices;
use crate::instruction::visit::replace_in;
use crate::instruction::{IncompletePhi, Instr, Instruction};
use crate::primitive::{Block, Value, Variable};
use vstd::prelude::*;

verus! {

impl FunctionModel {
    /// In a finished function every ϕ-instruction has an operand for every
    /// predecessor of its block and for no other block.
    pub proof fn lemma_phi_operands_match_predecessors(self, block: Block, k: int)
        requires
            self.is_finished(),
            self.has_block(block),
            0 <= k < self.block(block).phis.len(),
        ensures
            self.instr(self.block(block).phis[k]) matches Instruction::Phi(phi)
                && phi.operands@.dom() == block_indices(self.block(block).preds),
    {
        assert(self.phi_complete(block.index() as int, k));
        assert(self.block_wf(self.blocks[block.index() as int]));
    }

    /// In a finished function every block holds exactly one terminal
    /// instruction, and it is the last instruction of the block.
    pub proof fn lemma_one_terminal_at_the_end(self, block: Block)
        requires
            self.is_finished(),
            self.has_block(block),
        ensures
            self.block(block).body().len() > 0,
            self.instr(self.block(block).body().last()) is Terminal,
            forall|k: int|
                0 <= k < self.block(block).body().len() - 1 ==> !(self.instr(
                    #[trigger] self.block(block).body()[k],
                ) is Terminal),
    {
        let data = self.blocks[block.index() as int];
        assert(self.block_wf(data));
        assert(data.filled);
        assert(data.body().last() == data.instrs.last());
        assert forall|k: int| 0 <= k < data.body().len() - 1 implies !(self.instr(
            #[trigger] data.body()[k],
        ) is Terminal) by {
            if k < data.phis.len() {
                assert(data.body()[k] == data.phis[k]);
            } else {
                assert(data.body()[k] == data.instrs[k - data.phis.len()]);
            }
        }
    }

    /// A block is a predecessor of exactly the blocks that its terminal
    /// instruction can pass control to, and those are blocks of the function.
    pub proof fn lemma_targets_are_successors(self, from: Block, to: Block)
        requires
            self.wf(),
            self.has_block(from),
            self.block(from).filled,
        ensures
            self.last_of(from) is Terminal,
            self.last_of(from).has_target(to) ==> self.has_block(to) && self.block(to).has_pred(
                from,
            ),
            self.has_block(to) && self.block(to).has_pred(from) ==> self.last_of(from).has_target(
                to,
            ),
    {
        assert(self.block_wf(self.blocks[from.index() as int]));
        if self.last_of(from).has_target(to) {
            assert(self.branches(from, to));
        }
        if self.has_block(to) {
            assert(self.block(to).has_pred(from) <==> self.branches(from, to));
        }
    }

    /// The value that an instruction defines is recorded as defined by that
    /// instruction, and has the type that the instruction tells.
    pub proof fn lemma_value_of_instruction(self, instr: Instr)
        requires
            self.wf(),
            self.value_of(instr).is_some(),
        ensures
            self.has_instr(instr),
            self.has_value(self.value_of(instr).unwrap()),
            self.assoc(self.value_of(instr).unwrap()) == ValueAssoc::Instr(instr),
            self.instr(instr).result_type() matches Some(ty) ==> self.type_of(
                self.value_of(instr).unwrap(),
            ) == ty,
    {
        let value = self.instr_value[instr.index()];
        assert(self.instr_value.contains_key(instr.index()));
        if let ValueAssoc::Instr(defining) = self.assoc(value) {
            Instr::lemma_index_injective(defining, instr);
        }
    }

    /// A value that is defined by an instruction is the value that the
    /// instruction defines.
    pub proof fn lemma_instruction_of_value(self, value: Value, instr: Instr)
        requires
            self.wf(),
            self.has_value(value),
            self.assoc(value) == ValueAssoc::Instr(instr),
        ensures
            self.value_of(instr) == Some(value),
    {
        assert(self.value_assoc[value.index() as int] matches ValueAssoc::Instr(defining));
        Value::lemma_index_injective(self.instr_value[instr.index()], value);
    }

    /// Reading variables and sealing blocks gives no ϕ-instruction to a
    /// sealed block with exactly one predecessor.
    pub proof fn lemma_single_predecessor_gains_no_phi(self, before: Self, block: Block, k: int)
        requires
            self.extends(before),
            before.has_block(block),
            before.block(block).sealed,
            before.block(block).preds.len() == 1,
            0 <= k < self.block(block).phis.len(),
        ensures
            before.block(block).phis.contains(self.block(block).phis[k]),
    {
        assert(before.blocks[block.index() as int].phis.contains(
            self.blocks[block.index() as int].phis[k],
        ));
    }

    /// A read of a variable in a sealed block without predecessors, such
    /// as the entry block, in which the variable has no definition fails:
    /// the variable is read before it is written. The function stays as it
    /// is.
    pub proof fn lemma_read_without_predecessors_fails(
        self,
        before: Self,
        var: Variable,
        block: Block,
        outcome: Result<Value, crate::error::IrError>,
    )
        requires
            self.reads(before, var, block, outcome),
            before.block(block).sealed,
            before.block(block).preds.len() == 0,
            before.vars.definition(var, block).is_none(),
        ensures
            outcome == Err::<Value, crate::error::IrError>(
                crate::error::IrError::FunctionBuilder(
                    crate::error::FunctionBuilderError::ReadBeforeWriteVariable { variable: var },
                ),
            ),
            self == before,
    {
        let steps = before.blocks.len();
        assert(before.way_up(var, block, steps) =~= Seq::<Block>::empty());
        assert(before.top_of_way(var, block, steps) == block);
    }

    /// A read of a variable in a sealed block with two predecessors that
    /// have the same definition of the variable gives that definition, and
    /// the block gains no ϕ-instruction: the ϕ-instruction that the read
    /// begins with is trivial and is removed.
    pub proof fn lemma_equal_definitions_need_no_phi(
        self,
        before: Self,
        var: Variable,
        block: Block,
        value: Value,
        outcome: Result<Value, crate::error::IrError>,
    )
        requires
            self.reads(before, var, block, outcome),
            before.has_block(block),
            before.block(block).sealed,
            before.block(block).preds.len() == 2,
            before.vars.definition(var, block).is_none(),
            before.vars.definition(var, before.block(block).preds[0]) == Some(value),
            before.vars.definition(var, before.block(block).preds[1]) == Some(value),
        ensures
            outcome == Ok::<Value, crate::error::IrError>(value),
            self.blocks == before.blocks,
            self.phi_block == before.phi_block,
            self.vars == before.vars.written(var, block, value),
    {
        let steps = before.blocks.len();
        assert(before.way_up(var, block, steps) =~= Seq::<Block>::empty());
        assert(before.top_of_way(var, block, steps) == block);
        let operands = before.definitions_in(var, block, 2);
        let first = before.block(block).preds[0].index();
        let second = before.block(block).preds[1].index();
        assert(operands.contains_key(first));
        assert(operands.contains_key(second));
        assert forall|a: u32, b: u32|
            operands.contains_key(a) && operands.contains_key(b) implies operands[a]
            == operands[b] by {
            let i = choose|i: int|
                0 <= i < 2 && i < before.block(block).preds.len() && (
                #[trigger] before.block(block).preds[i]).index() == a;
            let j = choose|j: int|
                0 <= j < 2 && j < before.block(block).preds.len() && (
                #[trigger] before.block(block).preds[j]).index() == b;
            assert(before.vars.definition(var, before.block(block).preds[i]) == Some(value));
            assert(before.vars.definition(var, before.block(block).preds[j]) == Some(value));
        }
        assert(before.merges_definitions(var, block)) by {
            assert forall|k: int| 0 <= k < before.block(block).preds.len() implies before.vars.definition(
                var,
                #[trigger] before.block(block).preds[k],
            ).is_some() by {
                if k == 0 {
                } else {
                    assert(k == 1);
                }
            }
        }
        assert(operands[first] == value);
        assert(before.vars.written(var, block, value).written_all(
            var,
            Seq::<Block>::empty(),
            value,
        ) == before.vars.written(var, block, value));
    }
}

impl IncompletePhi {
    /// A trivial ϕ-instruction stays trivial, with the same value in its
    /// place, when its own value gives way to that value among its
    /// operands: removing it a second time changes nothing.
    pub proof fn lemma_trivial_is_fixed_point(
        operands: Map<u32, Value>,
        phi_value: Value,
        same: Value,
    )
        requires
            Self::merged(operands, phi_value) == set![same],
        ensures
            Self::merged(
                operands.map_values(|value: Value| replace_in(value, phi_value, same)),
                phi_value,
            ) == set![same],
            Self::merged(
                operands.map_values(|value: Value| replace_in(value, phi_value, same)),
                same,
            ) == Set::<Value>::empty(),
    {
        let replaced = operands.map_values(|value: Value| replace_in(value, phi_value, same));
        assert(Self::merged(operands, phi_value).contains(same));
        let witness = choose|block: u32| #[trigger]
            operands.contains_key(block) && operands[block] == same;
        assert(replaced.contains_key(witness) && replaced[witness] == same);
        assert forall|value: Value| Self::merged(replaced, phi_value).contains(value) implies value
            == same by {
            let block = choose|block: u32| #[trigger]
                replaced.contains_key(block) && replaced[block] == value;
            assert(operands.contains_key(block));
            if operands[block] != phi_value {
                assert(Self::merged(operands, phi_value).contains(operands[block]));
            }
        }
        assert(Self::merged(replaced, phi_value) =~= set![same]);
        assert forall|value: Value| !Self::merged(replaced, same).contains(value) by {
            if Self::merged(replaced, same).contains(value) {
                let block = choose|block: u32| #[trigger]
                    replaced.contains_key(block) && replaced[block] == value;
                assert(operands.contains_key(block));
                if operands[block] != phi_value {
                    assert(Self::merged(operands, phi_value).contains(operands[block]));
                }
            }
        }
        assert(Self::merged(replaced, same) =~= Set::<Value>::empty());
    }
}

} // verus!
