//! The end of the construction: the checks that make a function of what
//! was built.

use crate::builder::function::{Function, FunctionBuilder};
use crate::builder::model::{FunctionModel, ValueAssoc};
use crate::builder::state;
use crate::entity::index::Index32;
use crate::error::{FunctionBuilderError, IrError};
use crate::instruction::phi::block_indices;
use crate::instruction::{Instr, Instruction};
use crate::primitive::{Block, Type, Value};
use vstd::prelude::*;

verus! {

impl FunctionModel {
    /// Whether the ϕ-instruction at the given position of the block has an
    /// operand for every predecessor of the block and for no other block.
    pub open spec fn phi_complete(self, block: int, k: int) -> bool {
        self.instr(self.blocks[block].phis[k]).phi_blocks() == block_indices(
            self.blocks[block].preds,
        )
    }

    /// What keeps the block from being a block of a finished function, if
    /// anything: it has no terminal instruction, it is not sealed, or one of
    /// its ϕ-instructions does not match its predecessors.
    pub open spec fn block_defect(self, block: int) -> Option<FunctionBuilderError> {
        if !self.blocks[block].filled {
            Some(FunctionBuilderError::BlockNotFilledAtFinalize { block: Block::at(block as u32) })
        } else if !self.blocks[block].sealed {
            Some(FunctionBuilderError::BlockNotSealedAtFinalize { block: Block::at(block as u32) })
        } else if exists|k: int|
            0 <= k < self.blocks[block].phis.len() && !#[trigger] self.phi_complete(block, k) {
            Some(
                FunctionBuilderError::PhiOperandsNotMatchingPredecessors {
                    block: Block::at(block as u32),
                },
            )
        } else {
            None
        }
    }

    /// The defect of the first of the blocks below `upto` that has one.
    pub open spec fn first_defect(self, upto: int) -> Option<FunctionBuilderError>
        decreases upto,
    {
        if upto <= 0 {
            None
        } else {
            match self.first_defect(upto - 1) {
                Some(defect) => Some(defect),
                None => self.block_defect(upto - 1),
            }
        }
    }

    /// What holds of a finished function: it is well formed, every block is
    /// filled and sealed, and every ϕ-instruction has an operand for every
    /// predecessor of its block and for no other block.
    pub open spec fn is_finished(self) -> bool {
        &&& self.wf()
        &&& forall|b: int|
            0 <= b < self.blocks.len() ==> (#[trigger] self.blocks[b]).filled
                && self.blocks[b].sealed
        &&& forall|b: int, k: int|
            0 <= b < self.blocks.len() && 0 <= k < self.blocks[b].phis.len()
                ==> #[trigger] self.phi_complete(b, k)
    }

    /// A well-formed function without a defect in any block is finished.
    pub proof fn lemma_no_defect(self, upto: int)
        requires
            0 <= upto <= self.blocks.len(),
            self.first_defect(upto).is_none(),
        ensures
            forall|b: int| 0 <= b < upto ==> self.block_defect(b).is_none(),
        decreases upto,
    {
        if upto > 0 {
            self.lemma_no_defect(upto - 1);
        }
    }
}

impl Function {
    /// The storage is consistent and the function is finished.
    pub open spec fn wf(&self) -> bool {
        self.ctx.store_wf() && self@.is_finished()
    }

    /// Returns the number of basic blocks.
    pub fn len_blocks(&self) -> (len: usize)
        ensures
            len == self@.blocks.len(),
    {
        self.ctx.len_blocks()
    }

    /// Returns the number of instructions, the removed ϕ-instructions among them.
    pub fn len_instrs(&self) -> (len: usize)
        ensures
            len == self@.instrs.len(),
    {
        self.ctx.len_instrs()
    }

    /// Returns the number of values.
    pub fn len_values(&self) -> (len: usize)
        ensures
            len == self@.value_type.len(),
    {
        self.ctx.len_values()
    }

    /// Returns the predecessors of the block, ordered by index.
    pub fn block_preds(&self, block: Block) -> (preds: &Vec<Block>)
        requires
            self.wf(),
            self@.has_block(block),
        ensures
            preds@ == self@.block(block).preds,
    {
        &self.ctx.block(block).preds
    }

    /// Returns the ϕ-instructions of the block.
    pub fn block_phis(&self, block: Block) -> (phis: &Vec<Instr>)
        requires
            self.wf(),
            self@.has_block(block),
        ensures
            phis@ == self@.block(block).phis,
    {
        &self.ctx.block(block).phis
    }

    /// Returns the instructions of the block other than ϕ-instructions, in
    /// order. The last is the terminal instruction of the block.
    pub fn block_instrs(&self, block: Block) -> (instrs: &Vec<Instr>)
        requires
            self.wf(),
            self@.has_block(block),
        ensures
            instrs@ == self@.block(block).instrs,
            instrs@.len() > 0,
            self@.instr(instrs@.last()) is Terminal,
    {
        proof {
            assert(self@.block_wf(self@.blocks[block.index() as int]));
        }
        &self.ctx.block(block).instrs
    }

    /// Returns the instruction.
    pub fn instr(&self, instr: Instr) -> (instruction: &Instruction)
        requires
            self@.has_instr(instr),
        ensures
            *instruction == self@.instr(instr),
    {
        self.ctx.instr(instr)
    }

    /// Returns the value that the instruction defines, if any.
    pub fn instr_value(&self, instr: Instr) -> (value: Option<Value>)
        ensures
            value == self@.value_of(instr),
    {
        self.ctx.value_of(instr)
    }

    /// Returns the type of the value.
    pub fn value_type(&self, value: Value) -> (ty: Type)
        requires
            self.wf(),
            self@.has_value(value),
        ensures
            ty == self@.type_of(value),
    {
        self.ctx.type_of(value)
    }

    /// Returns the origin of the value.
    pub fn value_assoc(&self, value: Value) -> (assoc: ValueAssoc)
        requires
            self.wf(),
            self@.has_value(value),
        ensures
            assoc == self@.assoc(value),
    {
        self.ctx.assoc(value)
    }
}

impl FunctionBuilder<state::Body> {
    /// Checks one block for what keeps it from being a block of a finished function.
    fn check_block(&self, block: Block) -> (defect: Option<FunctionBuilderError>)
        requires
            self.wf(),
            self@.has_block(block),
        ensures
            defect == self@.block_defect(block.index() as int),
    {
        let data = self.ctx.block(block);
        proof {
            Block::lemma_at(block.index());
            Block::lemma_same_index(block, Block::at(block.index()));
            assert(self@.block_wf(self@.blocks[block.index() as int]));
        }
        if !data.filled {
            return Some(FunctionBuilderError::BlockNotFilledAtFinalize { block });
        }
        if !data.sealed {
            return Some(FunctionBuilderError::BlockNotSealedAtFinalize { block });
        }
        let mut k: usize = 0;
        while k < data.phis.len()
            invariant
                k <= data.phis@.len(),
                self.wf(),
                self@.has_block(block),
                data@ == self@.block(block),
                self@.block_wf(self@.blocks[block.index() as int]),
                block == Block::at(block.index()),
                data.filled,
                data.sealed,
                forall|j: int| 0 <= j < k ==> #[trigger] self@.phi_complete(block.index() as int, j),
            decreases data.phis@.len() - k,
        {
            let instr = data.phis[k];
            proof {
                assert(self@.has_instr(self@.blocks[block.index() as int].phis[k as int]));
            }
            proof {
                let model = self@.block(block);
                assert(data.preds@ == model.preds);
                assert forall|i: int, j: int| 0 <= i < j < data.preds@.len() implies (
                #[trigger] data.preds@[i]).index() < (#[trigger] data.preds@[j]).index() by {
                    assert(model.preds[i].index() < model.preds[j].index());
                }
            }
            let complete = match self.ctx.instr(instr) {
                Instruction::Phi(phi) => phi.operands.has_operands_for(&data.preds),
                _ => false,
            };
            if !complete {
                proof {
                    assert(!self@.phi_complete(block.index() as int, k as int));
                }
                return Some(FunctionBuilderError::PhiOperandsNotMatchingPredecessors { block });
            }
            k = k + 1;
        }
        None
    }

    /// Ends the construction of the function.
    ///
    /// Every basic block must be filled and sealed, and every ϕ-instruction
    /// must have an operand for every predecessor of its block and for no
    /// other block.
    ///
    /// # Errors
    ///
    /// The defect of the first block, by index, that has one.
    pub fn finalize(self) -> (outcome: Result<Function, IrError>)
        requires
            self.wf(),
        ensures
            match outcome {
                Ok(function) => {
                    &&& self@.first_defect(self@.blocks.len() as int).is_none()
                    &&& function@ == self@
                    &&& function.wf()
                },
                Err(error) => {
                    &&& self@.first_defect(self@.blocks.len() as int) matches Some(defect)
                    &&& error == IrError::FunctionBuilder(defect)
                },
            },
    {
        let len = self.ctx.len_blocks();
        let mut b: usize = 0;
        while b < len
            invariant
                b <= len,
                len == self@.blocks.len(),
                self.wf(),
                self@.first_defect(b as int).is_none(),
            decreases len - b,
        {
            let block = Block::from_u32(b as u32);
            match self.check_block(block) {
                Some(defect) => {
                    proof {
                        self@.lemma_defect_found(b as int, len as int);
                    }
                    return Err(IrError::FunctionBuilder(defect));
                },
                None => {},
            }
            b = b + 1;
        }
        proof {
            self@.lemma_no_defect(len as int);
            assert forall|b: int, k: int|
                0 <= b < self@.blocks.len() && 0 <= k < self@.blocks[b].phis.len() implies #[trigger] self@.phi_complete(
                b,
                k,
            ) by {
                assert(self@.block_defect(b).is_none());
            }
            assert forall|b: int| 0 <= b < self@.blocks.len() implies (
            #[trigger] self@.blocks[b]).filled && self@.blocks[b].sealed by {
                assert(self@.block_defect(b).is_none());
            }
        }
        Ok(Function { ctx: self.ctx })
    }
}

impl FunctionModel {
    /// The defect of a block is the first defect if no block before it has one.
    pub proof fn lemma_defect_found(self, block: int, upto: int)
        requires
            0 <= block < upto,
            self.first_defect(block).is_none(),
            self.block_defect(block).is_some(),
        ensures
            self.first_defect(upto) == self.block_defect(block),
        decreases upto - block,
    {
        if upto > block + 1 {
            self.lemma_defect_found(block, upto - 1);
        }
    }
}

} // verus!
