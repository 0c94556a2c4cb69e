//! The builder of single instructions.

use crate::builder::function::FunctionBuilder;
use crate::builder::model::{BlockModel, FunctionModel, ValueAssoc};
use crate::builder::state;
use crate::entity::index::Index32;
use crate::error::{FunctionBuilderError, IrError};
use crate::instruction::{
    BinaryIntInstr,
    BinaryIntOp,
    BranchInstr,
    CompareIntInstr,
    CompareIntOp,
    ConstInstr,
    IfThenElseInstr,
    Instr,
    Instruction,
    IntInstr,
    ReturnInstr,
    SelectInstr,
    TerminalInstr,
};
use crate::primitive::{Block, Const, IntType, Type, Value};
use vstd::prelude::*;
use vstd::std_specs::convert::IntoSpec;

verus! {

/// Appends one instruction to the current basic block of a function builder.
pub struct FunctionInstrBuilder<'a> {
    /// The function builder that the instruction is appended to.
    pub builder: &'a mut FunctionBuilder<state::Body>,
}

impl FunctionBuilder<state::Body> {
    /// Records the instruction that is added next as a user of the operands.
    fn add_users(&mut self, operands: &Vec<Value>) -> (next: Instr)
        requires
            old(self).wf(),
            forall|k: int| 0 <= k < operands@.len() ==> old(self)@.has_value(#[trigger] operands@[k]),
        ensures
            final(self).wf(),
            next == old(self)@.next_instr(),
            final(self)@ == old(self)@.with_users(operands@, next),
    {
        let next = Instr::from_u32(self.ctx.len_instrs() as u32);
        proof {
            Instr::lemma_at(self@.instrs.len() as u32);
            Instr::lemma_same_index(next, self@.next_instr());
        }
        let mut i: usize = 0;
        while i < operands.len()
            invariant
                i <= operands@.len(),
                self.ctx.store_wf(),
                self@ == old(self)@.with_users(operands@.take(i as int), next),
            decreases operands@.len() - i,
        {
            assert(self@.users(operands@[i as int]) == if self@.value_users.contains_key(
                operands@[i as int].index(),
            ) {
                self@.value_users[operands@[i as int].index()]
            } else {
                Seq::<Instr>::empty()
            });
            self.ctx.add_user(operands[i], next);
            proof {
                assert(operands@.take(i + 1).drop_last() =~= operands@.take(i as int));
                assert(seq![next] =~= Seq::<Instr>::empty().push(next));
            }
            i = i + 1;
        }
        proof {
            assert(operands@.take(i as int) =~= operands@);
            old(self)@.lemma_with_users(operands@, next);
        }
        next
    }

    /// Appends the instruction, which defines a value of the given type, to
    /// the current basic block.
    ///
    /// # Errors
    ///
    /// If the current block has its terminal instruction already.
    pub fn append_value_instr(
        &mut self,
        instruction: Instruction,
        ty: Type,
        operands: &Vec<Value>,
    ) -> (outcome: Result<Value, IrError>)
        requires
            old(self).wf(),
            forall|k: int| 0 <= k < operands@.len() ==> old(self)@.has_value(#[trigger] operands@[k]),
            !old(self)@.block(old(self)@.current).filled ==> old(self)@.instrs.len() + 1 < u32::MAX,
            !old(self)@.block(old(self)@.current).filled ==> old(self)@.value_type.len() + 1 < u32::MAX,
            !(instruction is Terminal),
            !(instruction is Phi),
            !(instruction is Store),
            instruction.result_type() matches Some(told) ==> told == ty,
            forall|value: Value| instruction.uses(value) ==> operands@.contains(value),
        ensures
            final(self).wf(),
            match outcome {
                Ok(value) => {
                    &&& !old(self)@.block(old(self)@.current).filled
                    &&& value == old(self)@.next_value()
                    &&& final(self)@.has_value(value)
                    &&& final(self)@ == old(self)@.appended_value(instruction, ty, operands@)
                },
                Err(error) => {
                    &&& old(self)@.block(old(self)@.current).filled
                    &&& error == IrError::FunctionBuilder(
                        FunctionBuilderError::BlockAlreadyFilled { block: old(self)@.current },
                    )
                    &&& final(self)@ == old(self)@
                },
            },
    {
        let block = self.ctx.current;
        if self.ctx.block(block).filled {
            return Err(IrError::FunctionBuilder(FunctionBuilderError::BlockAlreadyFilled { block }));
        }
        let next = self.add_users(operands);
        let ghost recorded = self@;
        let instr = self.ctx.push_instr(instruction);
        let value = self.ctx.push_value(ty, ValueAssoc::Instr(instr));
        self.ctx.set_instr_value(instr, value);
        let data = self.ctx.block_mut(block);
        data.instrs.push(instr);
        proof {
            Instr::lemma_at(old(self)@.instrs.len() as u32);
            Instr::lemma_same_index(instr, next);
            Value::lemma_at(old(self)@.value_type.len() as u32);
            Value::lemma_same_index(value, old(self)@.next_value());
            old(self)@.lemma_with_users(operands@, next);
            assert(self@.blocks =~= recorded.with_value_instr(
                block,
                instruction,
                ty,
                instr,
                value,
            ).blocks);
            assert(self@ == recorded.with_value_instr(block, instruction, ty, instr, value));
            recorded.lemma_with_value_instr(block, instruction, ty, instr, value);
        }
        Ok(value)
    }

    /// Returns the error that a branch from the current block to one of
    /// the targets, or to the default target, would end in, if any.
    pub fn branch_table_refusal(&self, default: Block, targets: &Vec<Block>) -> (refusal: Option<
        IrError,
    >)
        requires
            self.wf(),
            self@.has_block(default),
            forall|i: int| 0 <= i < targets@.len() ==> self@.has_block(targets@[i]),
        ensures
            refusal == FunctionInstrBuilder::branch_table_error(self@, default, targets@),
    {
        let current = self.ctx.current;
        if self.ctx.block(current).filled {
            return Some(
                IrError::FunctionBuilder(FunctionBuilderError::BlockAlreadyFilled { block: current }),
            );
        }
        let ghost all = seq![default] + targets@;
        proof {
            assert(all.take(0) =~= Seq::<Block>::empty());
        }
        if self.ctx.block(default).sealed {
            proof {
                FunctionInstrBuilder::lemma_first_sealed(self@, all, 0);
            }
            return Some(
                IrError::FunctionBuilder(
                    FunctionBuilderError::PredecessorForSealedBlock {
                        sealed_block: default,
                        new_pred: current,
                    },
                ),
            );
        }
        proof {
            assert(all.take(1).drop_last() =~= all.take(0));
        }
        let mut k: usize = 0;
        while k < targets.len()
            invariant
                k <= targets@.len(),
                self.wf(),
                all == seq![default] + targets@,
                current == self@.current,
                !self@.block(current).filled,
                forall|i: int| 0 <= i < targets@.len() ==> self@.has_block(targets@[i]),
                FunctionInstrBuilder::first_sealed(self@, all.take(k + 1)).is_none(),
            decreases targets@.len() - k,
        {
            assert(all.take(k + 2).drop_last() =~= all.take(k + 1));
            assert(all[k + 1] == targets@[k as int]);
            if self.ctx.block(targets[k]).sealed {
                proof {
                    FunctionInstrBuilder::lemma_first_sealed(self@, all, k + 1);
                }
                return Some(
                    IrError::FunctionBuilder(
                        FunctionBuilderError::PredecessorForSealedBlock {
                            sealed_block: targets[k],
                            new_pred: current,
                        },
                    ),
                );
            }
            k = k + 1;
        }
        proof {
            assert(all.take(k + 1) =~= all);
        }
        None
    }

    /// Appends the terminal instruction to the current basic block and makes
    /// the block a predecessor of the targets of the instruction.
    ///
    /// # Errors
    ///
    /// If the current block has its terminal instruction already.
    pub fn append_terminal(
        &mut self,
        instruction: Instruction,
        operands: &Vec<Value>,
        targets: &Vec<Block>,
    ) -> (outcome: Result<Instr, IrError>)
        requires
            old(self).wf(),
            forall|k: int| 0 <= k < operands@.len() ==> old(self)@.has_value(#[trigger] operands@[k]),
            !old(self)@.block(old(self)@.current).filled ==> old(self)@.instrs.len() + 1 < u32::MAX,
            instruction is Terminal,
            forall|value: Value| instruction.uses(value) ==> operands@.contains(value),
            forall|target: Block| instruction.has_target(target) <==> targets@.contains(target),
            forall|target: Block| targets@.contains(target) ==> old(self)@.has_block(target),
        ensures
            final(self).wf(),
            match outcome {
                Ok(instr) => {
                    &&& !old(self)@.block(old(self)@.current).filled
                    &&& instr == old(self)@.next_instr()
                    &&& final(self)@.appends_terminal(old(self)@, instruction, operands@)
                },
                Err(error) => {
                    &&& old(self)@.block(old(self)@.current).filled
                    &&& error == IrError::FunctionBuilder(
                        FunctionBuilderError::BlockAlreadyFilled { block: old(self)@.current },
                    )
                    &&& final(self)@ == old(self)@
                },
            },
    {
        let block = self.ctx.current;
        if self.ctx.block(block).filled {
            return Err(IrError::FunctionBuilder(FunctionBuilderError::BlockAlreadyFilled { block }));
        }
        let next = self.add_users(operands);
        let ghost recorded = self@;
        let instr = self.ctx.push_instr(instruction);
        let data = self.ctx.block_mut(block);
        data.instrs.push(instr);
        data.filled = true;
        proof {
            Instr::lemma_at(old(self)@.instrs.len() as u32);
            Instr::lemma_same_index(instr, next);
            old(self)@.lemma_with_users(operands@, next);
        }
        let ghost appended = self@;
        let mut i: usize = 0;
        while i < targets.len()
            invariant
                i <= targets@.len(),
                recorded.wf(),
                recorded.current == block,
                recorded.has_block(block),
                forall|target: Block| targets@.contains(target) ==> recorded.has_block(target),
                self.ctx.store_wf(),
                self@ == (FunctionModel { blocks: self@.blocks, ..appended }),
                appended == (FunctionModel {
                    blocks: appended.blocks,
                    instrs: recorded.instrs.push(instruction),
                    ..recorded
                }),
                self@.blocks.len() == recorded.blocks.len(),
                forall|b: int|
                    0 <= b < self@.blocks.len() ==> (#[trigger] self@.blocks[b]) == (BlockModel {
                        preds: self@.blocks[b].preds,
                        instrs: if b == block.index() {
                            recorded.blocks[b].instrs.push(instr)
                        } else {
                            recorded.blocks[b].instrs
                        },
                        filled: b == block.index() || recorded.blocks[b].filled,
                        ..recorded.blocks[b]
                    }),
                forall|to: Block, from: Block|
                    self@.has_block(to) ==> (#[trigger] self@.block(to).has_pred(from)
                        <==> recorded.block(to).has_pred(from) || (from == block
                        && targets@.take(i as int).contains(to))),
                forall|b: int, k: int, j: int|
                    0 <= b < self@.blocks.len() && 0 <= k < j < self@.blocks[b].preds.len() ==> (
                    #[trigger] self@.blocks[b].preds[k]).index() < (
                    #[trigger] self@.blocks[b].preds[j]).index(),
            decreases targets@.len() - i,
        {
            let target = targets[i];
            let ghost before = self@;
            proof {
                assert(targets@[i as int] == target);
                assert(targets@.contains(target));
                assert(recorded.has_block(target));
                assert(recorded.block_wf(recorded.blocks[target.index() as int]));
            }
            let data = self.ctx.block_mut(target);
            insert_sorted(&mut data.preds, block);
            proof {
                assert forall|to: Block, from: Block| self@.has_block(to) implies (
                #[trigger] self@.block(to).has_pred(from) <==> recorded.block(to).has_pred(from) || (
                from == block && targets@.take(i + 1).contains(to))) by {
                    let taken = targets@.take(i as int);
                    let more = targets@.take(i + 1);
                    assert(more.drop_last() =~= taken);
                    assert(more.last() == target);
                    if taken.contains(to) {
                        let k = choose|k: int| 0 <= k < taken.len() && taken[k] == to;
                        assert(more[k] == to);
                    }
                    if more.contains(to) && to != target {
                        let k = choose|k: int| 0 <= k < more.len() && more[k] == to;
                        assert(taken[k] == to);
                    }
                    assert(more.contains(target)) by {
                        assert(more[i as int] == target);
                    }
                    if to.index() == target.index() {
                        Block::lemma_index_injective(to, target);
                    } else {
                        assert(self@.block(to) == before.block(to));
                    }
                    assert(before.block(to).has_pred(from) <==> recorded.block(to).has_pred(from)
                        || (from == block && taken.contains(to)));
                }
            }
            i = i + 1;
        }
        proof {
            assert(targets@.take(i as int) =~= targets@);
            assert(self@.terminates(recorded, block, instruction, instr));
            self@.lemma_terminates(recorded, block, instruction, instr);
        }
        Ok(instr)
    }
}

impl<'a> FunctionInstrBuilder<'a> {
    /// Appends an instruction that produces the constant value.
    ///
    /// # Errors
    ///
    /// If the current block has its terminal instruction already.
    pub fn constant<C>(self, constant: C) -> (outcome: Result<Value, IrError>) where C: Into<Const>
        requires
            old(self.builder).wf(),
            !old(self.builder)@.block(old(self.builder)@.current).filled ==> old(self.builder)@.instrs.len() + 1 < u32::MAX,
            !old(self.builder)@.block(old(self.builder)@.current).filled ==> old(self.builder)@.value_type.len() + 1 < u32::MAX,
            C::obeys_into_spec(),
        ensures
            final(self.builder).wf(),
            match outcome {
                Ok(value) => {
                    &&& !old(self.builder)@.block(old(self.builder)@.current).filled
                    &&& value == old(self.builder)@.next_value()
                    &&& final(self.builder)@.has_value(value)
                    &&& final(self.builder)@ == old(self.builder)@.appended_value(
                        Instruction::Const(ConstInstr { const_value: constant.into_spec() }),
                        constant.into_spec().type_of(),
                        Seq::empty(),
                    )
                },
                Err(error) => {
                    &&& old(self.builder)@.block(old(self.builder)@.current).filled
                    &&& error == IrError::FunctionBuilder(
                        FunctionBuilderError::BlockAlreadyFilled {
                            block: old(self.builder)@.current,
                        },
                    )
                    &&& final(self.builder)@ == old(self.builder)@
                },
            },
    {
        let constant: Const = constant.into();
        let instruction = Instruction::Const(ConstInstr::new(constant));
        let operands: Vec<Value> = Vec::new();
        self.builder.append_value_instr(instruction, constant.ty(), &operands)
    }

    /// Appends a binary integer instruction with the given operand code.
    ///
    /// Both values and the result have the integer type `ty`.
    ///
    /// # Errors
    ///
    /// If the current block has its terminal instruction already.
    pub fn binary_int(self, op: BinaryIntOp, ty: IntType, lhs: Value, rhs: Value) -> (outcome:
        Result<Value, IrError>)
        requires
            old(self.builder).wf(),
            old(self.builder)@.has_value(lhs),
            old(self.builder)@.has_value(rhs),
            !old(self.builder)@.block(old(self.builder)@.current).filled ==> old(self.builder)@.instrs.len() + 1 < u32::MAX,
            !old(self.builder)@.block(old(self.builder)@.current).filled ==> old(self.builder)@.value_type.len() + 1 < u32::MAX,
        ensures
            final(self.builder).wf(),
            match outcome {
                Ok(value) => {
                    &&& !old(self.builder)@.block(old(self.builder)@.current).filled
                    &&& value == old(self.builder)@.next_value()
                    &&& final(self.builder)@.has_value(value)
                    &&& final(self.builder)@ == old(self.builder)@.appended_value(
                        Instruction::Int(IntInstr::Binary(BinaryIntInstr { op, ty, lhs, rhs })),
                        Type::Int(ty),
                        seq![lhs, rhs],
                    )
                },
                Err(error) => {
                    &&& old(self.builder)@.block(old(self.builder)@.current).filled
                    &&& error == IrError::FunctionBuilder(
                        FunctionBuilderError::BlockAlreadyFilled {
                            block: old(self.builder)@.current,
                        },
                    )
                    &&& final(self.builder)@ == old(self.builder)@
                },
            },
    {
        let instruction = Instruction::Int(IntInstr::Binary(BinaryIntInstr::new(op, ty, lhs, rhs)));
        let mut operands: Vec<Value> = Vec::new();
        operands.push(lhs);
        operands.push(rhs);
        assert(operands@ =~= seq![lhs, rhs]);
        assert(operands@[0] == lhs && operands@[1] == rhs);
        self.builder.append_value_instr(instruction, Type::Int(ty), &operands)
    }

    /// Appends an integer addition of two values of the integer type `ty`.
    ///
    /// # Errors
    ///
    /// If the current block has its terminal instruction already.
    pub fn iadd(self, ty: IntType, lhs: Value, rhs: Value) -> (outcome: Result<Value, IrError>)
        requires
            old(self.builder).wf(),
            old(self.builder)@.has_value(lhs),
            old(self.builder)@.has_value(rhs),
            !old(self.builder)@.block(old(self.builder)@.current).filled ==> old(self.builder)@.instrs.len() + 1 < u32::MAX,
            !old(self.builder)@.block(old(self.builder)@.current).filled ==> old(self.builder)@.value_type.len() + 1 < u32::MAX,
        ensures
            final(self.builder).wf(),
            match outcome {
                Ok(value) => {
                    &&& !old(self.builder)@.block(old(self.builder)@.current).filled
                    &&& value == old(self.builder)@.next_value()
                    &&& final(self.builder)@.has_value(value)
                    &&& final(self.builder)@ == old(self.builder)@.appended_value(
                        Instruction::Int(
                            IntInstr::Binary(BinaryIntInstr { op: BinaryIntOp::Add, ty, lhs, rhs }),
                        ),
                        Type::Int(ty),
                        seq![lhs, rhs],
                    )
                },
                Err(error) => {
                    &&& old(self.builder)@.block(old(self.builder)@.current).filled
                    &&& error == IrError::FunctionBuilder(
                        FunctionBuilderError::BlockAlreadyFilled {
                            block: old(self.builder)@.current,
                        },
                    )
                    &&& final(self.builder)@ == old(self.builder)@
                },
            },
    {
        self.binary_int(BinaryIntOp::Add, ty, lhs, rhs)
    }

    /// Appends an integer multiplication of two values of the integer type `ty`.
    ///
    /// # Errors
    ///
    /// If the current block has its terminal instruction already.
    pub fn imul(self, ty: IntType, lhs: Value, rhs: Value) -> (outcome: Result<Value, IrError>)
        requires
            old(self.builder).wf(),
            old(self.builder)@.has_value(lhs),
            old(self.builder)@.has_value(rhs),
            !old(self.builder)@.block(old(self.builder)@.current).filled ==> old(self.builder)@.instrs.len() + 1 < u32::MAX,
            !old(self.builder)@.block(old(self.builder)@.current).filled ==> old(self.builder)@.value_type.len() + 1 < u32::MAX,
        ensures
            final(self.builder).wf(),
            match outcome {
                Ok(value) => {
                    &&& !old(self.builder)@.block(old(self.builder)@.current).filled
                    &&& value == old(self.builder)@.next_value()
                    &&& final(self.builder)@.has_value(value)
                    &&& final(self.builder)@ == old(self.builder)@.appended_value(
                        Instruction::Int(
                            IntInstr::Binary(BinaryIntInstr { op: BinaryIntOp::Mul, ty, lhs, rhs }),
                        ),
                        Type::Int(ty),
                        seq![lhs, rhs],
                    )
                },
                Err(error) => {
                    &&& old(self.builder)@.block(old(self.builder)@.current).filled
                    &&& error == IrError::FunctionBuilder(
                        FunctionBuilderError::BlockAlreadyFilled {
                            block: old(self.builder)@.current,
                        },
                    )
                    &&& final(self.builder)@ == old(self.builder)@
                },
            },
    {
        self.binary_int(BinaryIntOp::Mul, ty, lhs, rhs)
    }

    /// Appends a comparison of two values of the integer type `ty`. The
    /// result is a `Bool`.
    ///
    /// # Errors
    ///
    /// If the current block has its terminal instruction already.
    pub fn icmp(self, ty: IntType, op: CompareIntOp, lhs: Value, rhs: Value) -> (outcome: Result<
        Value,
        IrError,
    >)
        requires
            old(self.builder).wf(),
            old(self.builder)@.has_value(lhs),
            old(self.builder)@.has_value(rhs),
            !old(self.builder)@.block(old(self.builder)@.current).filled ==> old(self.builder)@.instrs.len() + 1 < u32::MAX,
            !old(self.builder)@.block(old(self.builder)@.current).filled ==> old(self.builder)@.value_type.len() + 1 < u32::MAX,
        ensures
            final(self.builder).wf(),
            match outcome {
                Ok(value) => {
                    &&& !old(self.builder)@.block(old(self.builder)@.current).filled
                    &&& value == old(self.builder)@.next_value()
                    &&& final(self.builder)@.has_value(value)
                    &&& final(self.builder)@ == old(self.builder)@.appended_value(
                        Instruction::Int(
                            IntInstr::Compare(CompareIntInstr { op, int_type: ty, lhs, rhs }),
                        ),
                        Type::Bool,
                        seq![lhs, rhs],
                    )
                },
                Err(error) => {
                    &&& old(self.builder)@.block(old(self.builder)@.current).filled
                    &&& error == IrError::FunctionBuilder(
                        FunctionBuilderError::BlockAlreadyFilled {
                            block: old(self.builder)@.current,
                        },
                    )
                    &&& final(self.builder)@ == old(self.builder)@
                },
            },
    {
        let instruction = Instruction::Int(IntInstr::Compare(CompareIntInstr::new(op, ty, lhs, rhs)));
        let mut operands: Vec<Value> = Vec::new();
        operands.push(lhs);
        operands.push(rhs);
        assert(operands@ =~= seq![lhs, rhs]);
        assert(operands@[0] == lhs && operands@[1] == rhs);
        self.builder.append_value_instr(instruction, Type::Bool, &operands)
    }

    /// Appends a selection between two values of the given type by a condition.
    ///
    /// # Errors
    ///
    /// If the current block has its terminal instruction already.
    pub fn select(self, condition: Value, ty: Type, value_true: Value, value_false: Value) -> (outcome:
        Result<Value, IrError>)
        requires
            old(self.builder).wf(),
            old(self.builder)@.has_value(condition),
            old(self.builder)@.has_value(value_true),
            old(self.builder)@.has_value(value_false),
            !old(self.builder)@.block(old(self.builder)@.current).filled ==> old(self.builder)@.instrs.len() + 1 < u32::MAX,
            !old(self.builder)@.block(old(self.builder)@.current).filled ==> old(self.builder)@.value_type.len() + 1 < u32::MAX,
        ensures
            final(self.builder).wf(),
            match outcome {
                Ok(value) => {
                    &&& !old(self.builder)@.block(old(self.builder)@.current).filled
                    &&& value == old(self.builder)@.next_value()
                    &&& final(self.builder)@.has_value(value)
                    &&& final(self.builder)@ == old(self.builder)@.appended_value(
                        Instruction::Select(
                            SelectInstr { condition, value_type: ty, value_true, value_false },
                        ),
                        ty,
                        seq![condition, value_true, value_false],
                    )
                },
                Err(error) => {
                    &&& old(self.builder)@.block(old(self.builder)@.current).filled
                    &&& error == IrError::FunctionBuilder(
                        FunctionBuilderError::BlockAlreadyFilled {
                            block: old(self.builder)@.current,
                        },
                    )
                    &&& final(self.builder)@ == old(self.builder)@
                },
            },
    {
        let instruction = Instruction::Select(
            SelectInstr::new(condition, ty, value_true, value_false),
        );
        let mut operands: Vec<Value> = Vec::new();
        operands.push(condition);
        operands.push(value_true);
        operands.push(value_false);
        assert(operands@ =~= seq![condition, value_true, value_false]);
        assert(operands@[0] == condition && operands@[1] == value_true && operands@[2]
            == value_false);
        self.builder.append_value_instr(instruction, ty, &operands)
    }

    /// Appends the return of the value from the function. Fills the block.
    ///
    /// # Errors
    ///
    /// If the current block has its terminal instruction already.
    pub fn return_value(self, return_value: Value) -> (outcome: Result<Instr, IrError>)
        requires
            old(self.builder).wf(),
            old(self.builder)@.has_value(return_value),
            !old(self.builder)@.block(old(self.builder)@.current).filled ==> old(self.builder)@.instrs.len() + 1 < u32::MAX,
        ensures
            final(self.builder).wf(),
            match outcome {
                Ok(instr) => {
                    &&& !old(self.builder)@.block(old(self.builder)@.current).filled
                    &&& instr == old(self.builder)@.next_instr()
                    &&& final(self.builder)@.appends_terminal(
                        old(self.builder)@,
                        Instruction::Terminal(
                            TerminalInstr::Return(ReturnInstr { return_value: Some(return_value) }),
                        ),
                        seq![return_value],
                    )
                },
                Err(error) => {
                    &&& old(self.builder)@.block(old(self.builder)@.current).filled
                    &&& error == IrError::FunctionBuilder(
                        FunctionBuilderError::BlockAlreadyFilled {
                            block: old(self.builder)@.current,
                        },
                    )
                    &&& final(self.builder)@ == old(self.builder)@
                },
            },
    {
        let instruction = Instruction::Terminal(
            TerminalInstr::Return(ReturnInstr::new(return_value)),
        );
        let mut operands: Vec<Value> = Vec::new();
        operands.push(return_value);
        assert(operands@ =~= seq![return_value]);
        assert(operands@[0] == return_value);
        let targets: Vec<Block> = Vec::new();
        self.builder.append_terminal(instruction, &operands, &targets)
    }

    /// Appends the return from a function without a result. Fills the block.
    ///
    /// # Errors
    ///
    /// If the current block has its terminal instruction already.
    pub fn return_nothing(self) -> (outcome: Result<Instr, IrError>)
        requires
            old(self.builder).wf(),
            !old(self.builder)@.block(old(self.builder)@.current).filled ==> old(self.builder)@.instrs.len() + 1 < u32::MAX,
        ensures
            final(self.builder).wf(),
            match outcome {
                Ok(instr) => {
                    &&& !old(self.builder)@.block(old(self.builder)@.current).filled
                    &&& instr == old(self.builder)@.next_instr()
                    &&& final(self.builder)@.appends_terminal(
                        old(self.builder)@,
                        Instruction::Terminal(
                            TerminalInstr::Return(ReturnInstr { return_value: None }),
                        ),
                        Seq::empty(),
                    )
                },
                Err(error) => {
                    &&& old(self.builder)@.block(old(self.builder)@.current).filled
                    &&& error == IrError::FunctionBuilder(
                        FunctionBuilderError::BlockAlreadyFilled {
                            block: old(self.builder)@.current,
                        },
                    )
                    &&& final(self.builder)@ == old(self.builder)@
                },
            },
    {
        let instruction = Instruction::Terminal(TerminalInstr::Return(ReturnInstr::nothing()));
        let operands: Vec<Value> = Vec::new();
        let targets: Vec<Block> = Vec::new();
        self.builder.append_terminal(instruction, &operands, &targets)
    }

    /// Appends a trap. Fills the block.
    ///
    /// # Errors
    ///
    /// If the current block has its terminal instruction already.
    pub fn trap(self) -> (outcome: Result<Instr, IrError>)
        requires
            old(self.builder).wf(),
            !old(self.builder)@.block(old(self.builder)@.current).filled ==> old(self.builder)@.instrs.len() + 1 < u32::MAX,
        ensures
            final(self.builder).wf(),
            match outcome {
                Ok(instr) => {
                    &&& !old(self.builder)@.block(old(self.builder)@.current).filled
                    &&& instr == old(self.builder)@.next_instr()
                    &&& final(self.builder)@.appends_terminal(
                        old(self.builder)@,
                        Instruction::Terminal(TerminalInstr::Trap),
                        Seq::empty(),
                    )
                },
                Err(error) => {
                    &&& old(self.builder)@.block(old(self.builder)@.current).filled
                    &&& error == IrError::FunctionBuilder(
                        FunctionBuilderError::BlockAlreadyFilled {
                            block: old(self.builder)@.current,
                        },
                    )
                    &&& final(self.builder)@ == old(self.builder)@
                },
            },
    {
        let instruction = Instruction::Terminal(TerminalInstr::Trap);
        let operands: Vec<Value> = Vec::new();
        let targets: Vec<Block> = Vec::new();
        self.builder.append_terminal(instruction, &operands, &targets)
    }

    /// The error that branching from the current block to the target ends
    /// in, if any: the current block is filled, or the target is sealed.
    pub open spec fn branch_error(before: FunctionModel, target: Block) -> Option<IrError> {
        if before.block(before.current).filled {
            Some(
                IrError::FunctionBuilder(
                    FunctionBuilderError::BlockAlreadyFilled { block: before.current },
                ),
            )
        } else if before.block(target).sealed {
            Some(
                IrError::FunctionBuilder(
                    FunctionBuilderError::PredecessorForSealedBlock {
                        sealed_block: target,
                        new_pred: before.current,
                    },
                ),
            )
        } else {
            None
        }
    }

    /// Appends a branch to the target block. Fills the current block and
    /// makes it a predecessor of the target.
    ///
    /// # Errors
    ///
    /// - If the current block has its terminal instruction already.
    /// - If the target block is sealed.
    pub fn br(self, target: Block) -> (outcome: Result<Instr, IrError>)
        requires
            old(self.builder).wf(),
            Self::branch_error(old(self.builder)@, target).is_none() ==> old(self.builder)@.instrs.len() + 1 < u32::MAX,
            old(self.builder)@.has_block(target),
        ensures
            final(self.builder).wf(),
            match outcome {
                Ok(instr) => {
                    &&& Self::branch_error(old(self.builder)@, target).is_none()
                    &&& instr == old(self.builder)@.next_instr()
                    &&& final(self.builder)@.appends_terminal(
                        old(self.builder)@,
                        Instruction::Terminal(TerminalInstr::Br(BranchInstr { target })),
                        Seq::empty(),
                    )
                },
                Err(error) => {
                    &&& Self::branch_error(old(self.builder)@, target) == Some(error)
                    &&& final(self.builder)@ == old(self.builder)@
                },
            },
    {
        let block = self.builder.ctx.current;
        if self.builder.ctx.block(block).filled {
            return Err(IrError::FunctionBuilder(FunctionBuilderError::BlockAlreadyFilled { block }));
        }
        if self.builder.ctx.block(target).sealed {
            return Err(
                IrError::FunctionBuilder(
                    FunctionBuilderError::PredecessorForSealedBlock {
                        sealed_block: target,
                        new_pred: block,
                    },
                ),
            );
        }
        let instruction = Instruction::Terminal(TerminalInstr::Br(BranchInstr::new(target)));
        let operands: Vec<Value> = Vec::new();
        let mut targets: Vec<Block> = Vec::new();
        targets.push(target);
        assert(targets@[0] == target);
        self.builder.append_terminal(instruction, &operands, &targets)
    }

    /// The first of the blocks that is sealed, if any.
    pub open spec fn first_sealed(before: FunctionModel, blocks: Seq<Block>) -> Option<Block>
        decreases blocks.len(),
    {
        if blocks.len() == 0 {
            None
        } else {
            match Self::first_sealed(before, blocks.drop_last()) {
                Some(block) => Some(block),
                None => if before.block(blocks.last()).sealed {
                    Some(blocks.last())
                } else {
                    None
                },
            }
        }
    }

    /// The error that branching from the current block to one of several
    /// targets ends in, if any: the current block is filled, or the default
    /// target or one of the other targets is sealed.
    pub open spec fn branch_table_error(
        before: FunctionModel,
        default: Block,
        targets: Seq<Block>,
    ) -> Option<IrError> {
        if before.block(before.current).filled {
            Some(
                IrError::FunctionBuilder(
                    FunctionBuilderError::BlockAlreadyFilled { block: before.current },
                ),
            )
        } else {
            match Self::first_sealed(before, seq![default] + targets) {
                Some(sealed_block) => Some(
                    IrError::FunctionBuilder(
                        FunctionBuilderError::PredecessorForSealedBlock {
                            sealed_block,
                            new_pred: before.current,
                        },
                    ),
                ),
                None => None,
            }
        }
    }

    /// Appends a branch to one of several target blocks by an index. Fills
    /// the current block and makes it a predecessor of every target.
    ///
    /// An index beyond the targets branches to the default target.
    ///
    /// # Errors
    ///
    /// - If the current block has its terminal instruction already.
    /// - If one of the target blocks is sealed.
    pub fn br_table(self, case: Value, default: Block, targets: Vec<Block>) -> (outcome: Result<
        Instr,
        IrError,
    >)
        requires
            old(self.builder).wf(),
            old(self.builder)@.has_value(case),
            Self::branch_table_error(old(self.builder)@, default, targets@).is_none() ==> old(self.builder)@.instrs.len() + 1 < u32::MAX,
            old(self.builder)@.has_block(default),
            forall|i: int| 0 <= i < targets@.len() ==> old(self.builder)@.has_block(targets@[i]),
        ensures
            final(self.builder).wf(),
            match outcome {
                Ok(instr) => {
                    &&& Self::branch_table_error(old(self.builder)@, default, targets@).is_none()
                    &&& instr == old(self.builder)@.next_instr()
                    &&& final(self.builder)@.appends_terminal(
                        old(self.builder)@,
                        Instruction::Terminal(
                            TerminalInstr::BranchTable(
                                crate::instruction::BranchTableInstr { case, default, targets },
                            ),
                        ),
                        seq![case],
                    )
                },
                Err(error) => {
                    &&& Self::branch_table_error(old(self.builder)@, default, targets@) == Some(error)
                    &&& final(self.builder)@ == old(self.builder)@
                },
            },
    {
        match self.builder.branch_table_refusal(default, &targets) {
            Some(error) => {
                return Err(error);
            },
            None => {},
        }
        // The default target and the other targets, in this order.
        let mut all: Vec<Block> = Vec::new();
        all.push(default);
        let mut i: usize = 0;
        while i < targets.len()
            invariant
                i <= targets@.len(),
                all@ == seq![default] + targets@.take(i as int),
            decreases targets@.len() - i,
        {
            all.push(targets[i]);
            assert(targets@.take(i + 1) =~= targets@.take(i as int).push(targets@[i as int]));
            assert(seq![default] + targets@.take(i + 1) =~= (seq![default] + targets@.take(
                i as int,
            )).push(targets@[i as int]));
            i = i + 1;
        }
        assert(targets@.take(i as int) =~= targets@);
        let ghost listed = targets@;
        let instruction = Instruction::Terminal(
            TerminalInstr::BranchTable(
                crate::instruction::BranchTableInstr::new(case, default, targets),
            ),
        );
        let mut operands: Vec<Value> = Vec::new();
        operands.push(case);
        assert(operands@ =~= seq![case]);
        assert(operands@[0] == case);
        proof {
            assert forall|target: Block| instruction.has_target(target) <==> all@.contains(
                target,
            ) by {
                if listed.contains(target) {
                    let j = choose|j: int| 0 <= j < listed.len() && listed[j] == target;
                    assert(all@[j + 1] == target);
                }
                if all@.contains(target) {
                    let j = choose|j: int| 0 <= j < all@.len() && all@[j] == target;
                    if j > 0 {
                        assert(listed[j - 1] == target);
                    }
                }
                assert(all@[0] == default);
            }
            assert forall|target: Block| all@.contains(target) implies self.builder@.has_block(
                target,
            ) by {
                let j = choose|j: int| 0 <= j < all@.len() && all@[j] == target;
                if j > 0 {
                    assert(self.builder@.has_block(listed[j - 1]));
                }
            }
        }
        self.builder.append_terminal(instruction, &operands, &all)
    }

    /// The first sealed block among the first blocks is the first sealed
    /// block among all blocks.
    pub proof fn lemma_first_sealed(before: FunctionModel, blocks: Seq<Block>, at: int)
        requires
            0 <= at < blocks.len(),
            Self::first_sealed(before, blocks.take(at)).is_none(),
            before.block(blocks[at]).sealed,
        ensures
            Self::first_sealed(before, blocks) == Some(blocks[at]),
        decreases blocks.len() - at,
    {
        assert(blocks.take(at + 1).drop_last() =~= blocks.take(at));
        assert(Self::first_sealed(before, blocks.take(at + 1)) == Some(blocks[at]));
        Self::lemma_first_sealed_prefix(before, blocks, at + 1);
    }

    /// A sealed block among the first blocks is found among all blocks.
    pub proof fn lemma_first_sealed_prefix(before: FunctionModel, blocks: Seq<Block>, len: int)
        requires
            0 <= len <= blocks.len(),
            Self::first_sealed(before, blocks.take(len)).is_some(),
        ensures
            Self::first_sealed(before, blocks) == Self::first_sealed(before, blocks.take(len)),
        decreases blocks.len() - len,
    {
        if len < blocks.len() {
            assert(blocks.take(len + 1).drop_last() =~= blocks.take(len));
            Self::lemma_first_sealed_prefix(before, blocks, len + 1);
        } else {
            assert(blocks.take(len) =~= blocks);
        }
    }

    /// The error that branching from the current block to one of the two
    /// targets ends in, if any.
    pub open spec fn if_then_else_error(
        before: FunctionModel,
        then_target: Block,
        else_target: Block,
    ) -> Option<IrError> {
        if before.block(before.current).filled {
            Some(
                IrError::FunctionBuilder(
                    FunctionBuilderError::BlockAlreadyFilled { block: before.current },
                ),
            )
        } else if before.block(then_target).sealed {
            Some(
                IrError::FunctionBuilder(
                    FunctionBuilderError::PredecessorForSealedBlock {
                        sealed_block: then_target,
                        new_pred: before.current,
                    },
                ),
            )
        } else if before.block(else_target).sealed {
            Some(
                IrError::FunctionBuilder(
                    FunctionBuilderError::PredecessorForSealedBlock {
                        sealed_block: else_target,
                        new_pred: before.current,
                    },
                ),
            )
        } else if then_target == else_target {
            Some(
                IrError::FunctionBuilder(
                    FunctionBuilderError::BranchAlreadyExists {
                        from: before.current,
                        to: else_target,
                    },
                ),
            )
        } else {
            None
        }
    }

    /// Appends a branch to one of two target blocks by a condition. Fills
    /// the current block and makes it a predecessor of both targets.
    ///
    /// # Errors
    ///
    /// - If the current block has its terminal instruction already.
    /// - If one of the target blocks is sealed.
    /// - If both targets are the same block.
    pub fn if_then_else(self, condition: Value, then_target: Block, else_target: Block) -> (outcome:
        Result<Instr, IrError>)
        requires
            old(self.builder).wf(),
            old(self.builder)@.has_value(condition),
            Self::if_then_else_error(old(self.builder)@, then_target, else_target).is_none() ==> old(self.builder)@.instrs.len() + 1 < u32::MAX,
            old(self.builder)@.has_block(then_target),
            old(self.builder)@.has_block(else_target),
        ensures
            final(self.builder).wf(),
            match outcome {
                Ok(instr) => {
                    &&& Self::if_then_else_error(old(self.builder)@, then_target, else_target).is_none()
                    &&& instr == old(self.builder)@.next_instr()
                    &&& final(self.builder)@.appends_terminal(
                        old(self.builder)@,
                        Instruction::Terminal(
                            TerminalInstr::Ite(
                                IfThenElseInstr { condition, then_target, else_target },
                            ),
                        ),
                        seq![condition],
                    )
                },
                Err(error) => {
                    &&& Self::if_then_else_error(old(self.builder)@, then_target, else_target)
                        == Some(error)
                    &&& final(self.builder)@ == old(self.builder)@
                },
            },
    {
        let block = self.builder.ctx.current;
        if self.builder.ctx.block(block).filled {
            return Err(IrError::FunctionBuilder(FunctionBuilderError::BlockAlreadyFilled { block }));
        }
        if self.builder.ctx.block(then_target).sealed {
            return Err(
                IrError::FunctionBuilder(
                    FunctionBuilderError::PredecessorForSealedBlock {
                        sealed_block: then_target,
                        new_pred: block,
                    },
                ),
            );
        }
        if self.builder.ctx.block(else_target).sealed {
            return Err(
                IrError::FunctionBuilder(
                    FunctionBuilderError::PredecessorForSealedBlock {
                        sealed_block: else_target,
                        new_pred: block,
                    },
                ),
            );
        }
        if then_target == else_target {
            return Err(
                IrError::FunctionBuilder(
                    FunctionBuilderError::BranchAlreadyExists { from: block, to: else_target },
                ),
            );
        }
        let instruction = Instruction::Terminal(
            TerminalInstr::Ite(IfThenElseInstr::new(condition, then_target, else_target)),
        );
        let mut operands: Vec<Value> = Vec::new();
        operands.push(condition);
        assert(operands@ =~= seq![condition]);
        assert(operands@[0] == condition);
        let mut targets: Vec<Block> = Vec::new();
        targets.push(then_target);
        targets.push(else_target);
        assert(targets@[0] == then_target && targets@[1] == else_target);
        self.builder.append_terminal(instruction, &operands, &targets)
    }
}

/// Inserts the block into the blocks, which are ordered by index.
///
/// Returns `false`, and changes nothing, if the block is among them already.
pub fn insert_sorted(blocks: &mut Vec<Block>, block: Block) -> (inserted: bool)
    requires
        forall|i: int, j: int|
            0 <= i < j < old(blocks)@.len() ==> (#[trigger] old(blocks)@[i]).index() < (
            #[trigger] old(blocks)@[j]).index(),
    ensures
        inserted == !old(blocks)@.contains(block),
        !inserted ==> final(blocks)@ == old(blocks)@,
        forall|other: Block|
            final(blocks)@.contains(other) <==> old(blocks)@.contains(other) || other == block,
        forall|i: int, j: int|
            0 <= i < j < final(blocks)@.len() ==> (#[trigger] final(blocks)@[i]).index() < (
            #[trigger] final(blocks)@[j]).index(),
{
    let index: u32 = block.into_u32();
    let mut at: usize = 0;
    while at < blocks.len() && blocks[at].into_u32() < index
        invariant
            at <= blocks@.len(),
            blocks@ == old(blocks)@,
            forall|k: int| 0 <= k < at ==> (#[trigger] blocks@[k]).index() < index,
        decreases blocks@.len() - at,
    {
        at = at + 1;
    }
    if at < blocks.len() && blocks[at].into_u32() == index {
        proof {
            Block::lemma_index_injective(blocks@[at as int], block);
            assert(blocks@.contains(block));
        }
        return false;
    }
    proof {
        assert(!blocks@.contains(block)) by {
            if blocks@.contains(block) {
                let k = choose|k: int| 0 <= k < blocks@.len() && blocks@[k] == block;
                if k > at {
                    assert(blocks@[at as int].index() < blocks@[k].index());
                }
            }
        }
    }
    blocks.insert(at, block);
    proof {
        let before = old(blocks)@;
        let after = blocks@;
        assert forall|other: Block| after.contains(other) <==> before.contains(other) || other
            == block by {
            if after.contains(other) {
                let k = choose|k: int| 0 <= k < after.len() && after[k] == other;
                if k < at {
                    assert(before[k] == other);
                } else if k > at {
                    assert(before[k - 1] == other);
                }
            }
            if before.contains(other) {
                let k = choose|k: int| 0 <= k < before.len() && before[k] == other;
                if k < at {
                    assert(after[k] == other);
                } else {
                    assert(after[k + 1] == other);
                }
            }
            assert(after[at as int] == block);
        }
        assert forall|i: int, j: int| 0 <= i < j < after.len() implies (#[trigger] after[i]).index()
            < (#[trigger] after[j]).index() by {
            if j < at {
                assert(after[i] == before[i] && after[j] == before[j]);
            } else if j == at {
                assert(after[i] == before[i]);
            } else {
                assert(after[j] == before[j - 1]);
                if i < at {
                    assert(after[i] == before[i]);
                    if j - 1 > i {
                        assert(before[i].index() < before[j - 1].index());
                    }
                } else if i == at {
                    if j - 1 > at {
                        assert(before[at as int].index() < before[j - 1].index());
                    }
                } else {
                    assert(after[i] == before[i - 1]);
                    assert(before[i - 1].index() < before[j - 1].index());
                }
            }
        }
    }
    true
}

} // verus!
