//! How the translator handles structured control flow: the frames of
//! blocks, loops and conditionals, and the branches between them.

use crate::builder::function::FunctionBuilder;
use crate::builder::instruction::FunctionInstrBuilder;
use crate::builder::model::FunctionModel;
use crate::entity::index::Index32;
use crate::error::{IrError, WasmError};
use crate::primitive::{Block, IntType, Type, Value, Variable};
use crate::wasm::operator::BlockType;
use crate::wasm::stack::{missing, ValueEntry};
use crate::wasm::translate::{ControlFrame, ControlKind, ValueNumbering};
use vstd::prelude::*;

verus! {

impl ValueNumbering {
    /// Creates a new basic block.
    pub(crate) fn new_block(&mut self) -> (outcome: Result<Block, IrError>)
        requires
            old(self).wf(),
        ensures
            final(self).same_frames(old(self)),
            final(self).reachable == old(self).reachable,
            final(self).stack == old(self).stack,
            final(self).wf(),
            outcome matches Ok(block) ==> final(self).builder@.has_block(block) && final(self).builder@ == old(self).builder@.with_block(),
            outcome.is_err() ==> final(self).builder@ == old(self).builder@,
            outcome.is_ok() == old(self).has_room(),
            outcome matches Err(error) ==> error == IrError::Wasm(WasmError::FunctionTooLarge),
            outcome matches Ok(block) ==> block.index() == old(self).builder@.blocks.len(),
    {
        match self.room() {
            Ok(()) => {},
            Err(error) => {
                return Err(error);
            },
        }
        Ok(self.builder.create_block())
    }

    /// Whether `after` and `outcome` come from `before` by sealing the
    /// block: it is sealed, and the ϕ-instructions that waited for this
    /// have their operands or are removed. Where the function has no room
    /// for the operands, or the builder refuses, nothing changes.
    pub open spec fn sealed_at(
        before: FunctionModel,
        block: Block,
        after: FunctionModel,
        outcome: Result<(), IrError>,
    ) -> bool {
        let waiting = before.block(block).incomplete_phis.len();
        if !Self::fits(before) || before.instrs.len() + waiting * before.blocks.len() + 1
            >= u32::MAX || before.value_type.len() + waiting * before.blocks.len() + 1
            >= u32::MAX {
            outcome == Err::<(), IrError>(IrError::Wasm(WasmError::FunctionTooLarge)) && after
                == before
        } else if before.block(block).sealed {
            outcome == Err::<(), IrError>(
                IrError::FunctionBuilder(
                    crate::error::FunctionBuilderError::BlockAlreadySealed { block },
                ),
            ) && after == before
        } else if waiting == 0 {
            outcome.is_ok() && after == before.with_sealed(block)
        } else {
            &&& outcome.is_ok() ==> after.extends(before.with_sealed(block))
            &&& outcome.is_err() ==> after == before
            &&& after.completes_waiting(before, block, outcome)
        }
    }

    /// Seals the basic block.
    pub(crate) fn seal(&mut self, block: Block) -> (outcome: Result<(), IrError>)
        requires
            old(self).wf(),
            old(self).builder@.has_block(block),
        ensures
            final(self).same_frames(old(self)),
            final(self).reachable == old(self).reachable,
            final(self).stack == old(self).stack,
            final(self).wf(),
            final(self).builder@.blocks.len() == old(self).builder@.blocks.len(),
            final(self).builder@.current == old(self).builder@.current,
            final(self).builder@.inputs == old(self).builder@.inputs,
            final(self).builder@.vars.types == old(self).builder@.vars.types,
            !old(self).has_room() ==> outcome == Err::<(), IrError>(
                IrError::Wasm(WasmError::FunctionTooLarge),
            ) && final(self).builder@ == old(self).builder@,
            old(self).has_room() && !old(self).builder@.block(block).sealed && old(self).builder@.block(block).incomplete_phis.len() == 0 ==> outcome.is_ok() && final(self).builder@ == old(self).builder@.with_sealed(block),
            Self::sealed_at(old(self).builder@, block, final(self).builder@, outcome),
    {
        match self.room() {
            Ok(()) => {},
            Err(error) => {
                return Err(error);
            },
        }
        let waiting = self.builder.ctx.block(block).incomplete_phis.len() as u128;
        let blocks = self.builder.ctx.len_blocks() as u128;
        let instrs = self.builder.ctx.len_instrs() as u128;
        let values = self.builder.ctx.len_values() as u128;
        assert(waiting * blocks <= 0xFFFF_FFFF_FFFF_FFFF * 0xFFFF_FFFF) by (nonlinear_arith)
            requires
                waiting <= 0xFFFF_FFFF_FFFF_FFFF,
                blocks <= 0xFFFF_FFFF,
        ;
        assert(waiting == 0 ==> waiting * blocks == 0) by (nonlinear_arith);
        if instrs + waiting * blocks + 1 >= u32::MAX as u128 || values + waiting * blocks + 1
            >= u32::MAX as u128 {
            return Err(IrError::Wasm(WasmError::FunctionTooLarge));
        }
        let ghost before = self.builder@;
        let outcome = self.builder.seal_block_at(block);
        proof {
            if outcome.is_ok() {
                assert(self.builder@.extends(before.with_sealed(block)));
            }
        }
        outcome
    }

    /// Switches to the basic block, which has no terminal instruction:
    /// control can reach what is appended next.
    pub(crate) fn continue_in(&mut self, block: Block) -> (outcome: Result<(), IrError>)
        requires
            old(self).builder.wf(),
            old(self).builder@.has_block(block),
            forall|i: int|
                0 <= i < old(self).control@.len() ==> old(self).frame_wf(
                    #[trigger] old(self).control@[i],
                ),
            forall|i: int|
                0 <= i < old(self).stack@.len() ==> old(self).builder@.has_value(
                    (#[trigger] old(self).stack@[i]).value,
                ),
        ensures
            final(self).same_frames(old(self)),
            final(self).stack == old(self).stack,
            final(self).builder.wf(),
            final(self).builder@.blocks.len() == old(self).builder@.blocks.len(),
            outcome.is_ok() ==> final(self).wf() && final(self).reachable && final(self).builder@.current == block,
            Self::resumed(old(self).builder@, block, final(self).builder@, outcome),
            final(self).reachable == (outcome.is_ok() || old(self).reachable),
    {
        match self.builder.switch_to_block(block) {
            Ok(()) => {
                self.reachable = true;
                Ok(())
            },
            Err(error) => Err(error),
        }
    }

    /// Whether the function has room for what one operator can add to it
    /// and for `more` instructions and values besides.
    pub open spec fn fits_with(model: FunctionModel, more: nat) -> bool {
        &&& model.blocks.len() + 8 < u32::MAX
        &&& model.instrs.len() + model.blocks.len() + 16 + more < u32::MAX
        &&& model.value_type.len() + model.blocks.len() + 16 + more < u32::MAX
    }

    /// Whether the function has room for what one operator can add to it.
    pub open spec fn fits(model: FunctionModel) -> bool {
        Self::fits_with(model, 0)
    }

    /// Whether `after` and `outcome` come from `before` by ending the
    /// current block with a branch to the target: the branch is appended,
    /// or the function has no room for it or the builder refuses it, and
    /// nothing is appended.
    pub open spec fn branches(
        before: FunctionModel,
        target: Block,
        after: FunctionModel,
        outcome: Result<(), IrError>,
    ) -> bool {
        if !Self::fits(before) {
            outcome == Err::<(), IrError>(IrError::Wasm(WasmError::FunctionTooLarge)) && after
                == before
        } else {
            match FunctionInstrBuilder::branch_error(before, target) {
                Some(error) => outcome == Err::<(), IrError>(error) && after == before,
                None => outcome.is_ok() && after.appends_terminal(
                    before,
                    crate::instruction::Instruction::Terminal(
                        crate::instruction::TerminalInstr::Br(
                            crate::instruction::BranchInstr { target },
                        ),
                    ),
                    Seq::empty(),
                ),
            }
        }
    }

    /// Whether a branch to the frame carries a result to the end of the
    /// frame: the frame leaves a result and is no loop.
    pub open spec fn carries(frame: ControlFrame) -> bool {
        frame.kind != ControlKind::Loop && frame.result.is_some()
    }

    /// The error that carrying the result of the frame ends in, if any: the
    /// stack is empty, its top is not of the type of the result, or the
    /// variable for the result is not declared.
    pub open spec fn carry_error_on(
        model: FunctionModel,
        stack: Seq<ValueEntry>,
        frame: ControlFrame,
    ) -> Option<IrError> {
        if Self::carries(frame) {
            if stack.len() == 0 {
                Some(missing(1, stack))
            } else if stack.last().ty != frame.result.unwrap().1 {
                Self::operand_error(stack.last(), frame.result.unwrap().1)
            } else if !model.vars.is_declared(frame.result.unwrap().0) {
                Some(IrError::Wasm(WasmError::UnsupportedOperator))
            } else {
                None
            }
        } else {
            None
        }
    }

    /// The function after the result of the frame was carried: the top of
    /// the stack defines the variable for the result in the current block.
    pub open spec fn carried_on(
        model: FunctionModel,
        stack: Seq<ValueEntry>,
        frame: ControlFrame,
    ) -> FunctionModel {
        if Self::carries(frame) {
            model.with_def(frame.result.unwrap().0, model.current, stack.last().value)
        } else {
            model
        }
    }

    /// The error that carrying the result of the frame ends in, if any.
    pub open spec fn carry_error(&self, frame: ControlFrame) -> Option<IrError> {
        Self::carry_error_on(self.builder@, self.stack@, frame)
    }

    /// The function after the result of the frame was carried.
    pub open spec fn carried(&self, frame: ControlFrame) -> FunctionModel {
        Self::carried_on(self.builder@, self.stack@, frame)
    }

    /// Whether `after` and `outcome` come from `before` by a branch to the
    /// frame: the result of the frame is carried from the top of the
    /// stack, then the current block ends in a branch to the target of the
    /// frame.
    pub open spec fn left(
        before: FunctionModel,
        stack: Seq<ValueEntry>,
        frame: ControlFrame,
        after: FunctionModel,
        outcome: Result<(), IrError>,
    ) -> bool {
        match Self::carry_error_on(before, stack, frame) {
            Some(error) => outcome == Err::<(), IrError>(error) && after == before,
            None => Self::branches(
                Self::carried_on(before, stack, frame),
                frame.target,
                after,
                outcome,
            ),
        }
    }

    /// Whether `self` and `outcome` come from `before` by a branch to the
    /// frame.
    pub open spec fn leaves(
        &self,
        before: &Self,
        frame: ControlFrame,
        outcome: Result<(), IrError>,
    ) -> bool {
        Self::left(before.builder@, before.stack@, frame, self.builder@, outcome)
    }

    /// Whether `after` and `outcome` come from `before` by ending the
    /// current block, which control cannot leave otherwise, with a trap,
    /// unless it has its terminal instruction already.
    pub open spec fn closed(
        before: FunctionModel,
        after: FunctionModel,
        outcome: Result<(), IrError>,
    ) -> bool {
        if before.block(before.current).filled {
            outcome.is_ok() && after == before
        } else if Self::fits(before) {
            outcome.is_ok() && after.appends_terminal(
                before,
                crate::instruction::Instruction::Terminal(crate::instruction::TerminalInstr::Trap),
                Seq::empty(),
            )
        } else {
            outcome == Err::<(), IrError>(IrError::Wasm(WasmError::FunctionTooLarge)) && after
                == before
        }
    }

    /// Whether `after` and `outcome` come from `before` by ending the code
    /// of a frame: with a branch to the frame where control can reach the
    /// end of the code, with a trap where it cannot.
    pub open spec fn ended(
        before: FunctionModel,
        stack: Seq<ValueEntry>,
        frame: ControlFrame,
        reachable: bool,
        after: FunctionModel,
        outcome: Result<(), IrError>,
    ) -> bool {
        if reachable {
            Self::left(before, stack, frame, after, outcome)
        } else {
            Self::closed(before, after, outcome)
        }
    }

    /// Whether `after` and `outcome` come from `before` by making the
    /// block the current block, which a block that has its terminal
    /// instruction cannot be.
    pub open spec fn resumed(
        before: FunctionModel,
        block: Block,
        after: FunctionModel,
        outcome: Result<(), IrError>,
    ) -> bool {
        if before.block(block).filled {
            outcome == Err::<(), IrError>(
                IrError::FunctionBuilder(
                    crate::error::FunctionBuilderError::BlockAlreadyFilled { block },
                ),
            ) && after == before
        } else {
            outcome.is_ok() && after == before.with_current(block)
        }
    }

    /// The stack from which the code of the frame has been left: without
    /// the result of the frame, if it was carried from the top, and no
    /// higher than the stack was where the frame was entered.
    pub open spec fn cut(stack: Seq<ValueEntry>, frame: ControlFrame, carry: bool) -> Seq<
        ValueEntry,
    > {
        let rest = if carry && Self::carries(frame) {
            stack.drop_last()
        } else {
            stack
        };
        if frame.height <= rest.len() {
            rest.take(frame.height as int)
        } else {
            rest
        }
    }

    /// Ends the current basic block with a branch to the target.
    pub(crate) fn branch_to(&mut self, target: Block) -> (outcome: Result<(), IrError>)
        requires
            old(self).wf(),
            old(self).reachable,
            old(self).builder@.has_block(target),
        ensures
            final(self).same_frames(old(self)),
            final(self).stack == old(self).stack,
            final(self).builder.wf(),
            final(self).builder@.blocks.len() == old(self).builder@.blocks.len(),
            !final(self).reachable,
            final(self).wf(),
            Self::branches(old(self).builder@, target, final(self).builder@, outcome),
    {
        self.reachable = false;
        match self.room() {
            Ok(()) => {},
            Err(error) => {
                return Err(error);
            },
        }
        let ins = match self.builder.ins() {
            Ok(ins) => ins,
            Err(error) => {
                return Err(error);
            },
        };
        match ins.br(target) {
            Ok(_) => Ok(()),
            Err(error) => Err(error),
        }
    }

    /// Ends the current basic block, which control cannot leave otherwise,
    /// with a trap.
    pub(crate) fn close_dead_block(&mut self) -> (outcome: Result<(), IrError>)
        requires
            old(self).wf(),
        ensures
            final(self).same_frames(old(self)),
            final(self).stack == old(self).stack,
            final(self).wf(),
            !final(self).reachable,
            final(self).builder@.blocks.len() == old(self).builder@.blocks.len(),
            Self::closed(old(self).builder@, final(self).builder@, outcome),
    {
        self.reachable = false;
        let block = self.builder.current_block();
        proof {
            assert(self.builder@.has_block(block));
        }
        if self.builder.ctx.block(block).filled {
            return Ok(());
        }
        match self.room() {
            Ok(()) => {},
            Err(error) => {
                return Err(error);
            },
        }
        let ins = match self.builder.ins() {
            Ok(ins) => ins,
            Err(error) => {
                return Err(error);
            },
        };
        match ins.trap() {
            Ok(_) => Ok(()),
            Err(error) => Err(error),
        }
    }

    /// The error that a frame of the given type cannot be opened for, if
    /// any: the frame leaves a result, and the function has no variable
    /// left for it, or none of the type of the result.
    pub open spec fn result_error(&self, ty: BlockType) -> Option<IrError> {
        match ty {
            BlockType::Empty => None,
            BlockType::Value(result) => if self.next_result >= u32::MAX - 1 {
                Some(IrError::Wasm(WasmError::FunctionTooLarge))
            } else if (self.next_result as int) >= self.builder@.vars.types.len()
                || self.builder@.vars.types[self.next_result as int] != result.ir_type() {
                Some(IrError::Wasm(WasmError::UnsupportedOperator))
            } else {
                None
            },
        }
    }

    /// The variable that carries the result of a frame of the given type
    /// that is opened next, and the type of the result, if the frame
    /// leaves one.
    pub open spec fn result_var(&self, ty: BlockType) -> Option<(Variable, Type)> {
        match ty {
            BlockType::Empty => None,
            BlockType::Value(result) => Some((Variable::at(self.next_result), result.ir_type())),
        }
    }

    /// The index of the variable for the result of the frame after next,
    /// if the next has the given type.
    pub open spec fn result_after(&self, ty: BlockType) -> int {
        match ty {
            BlockType::Empty => self.next_result as int,
            BlockType::Value(_) => self.next_result + 1,
        }
    }

    /// Returns the variable for the result of a frame of the given type, if
    /// the frame leaves a result.
    pub(crate) fn result_of(&mut self, ty: BlockType) -> (outcome: Result<Option<(Variable, Type)>, IrError>)
        requires
            old(self).wf(),
        ensures
            final(self).wf(),
            final(self).builder == old(self).builder,
            final(self).control == old(self).control,
            final(self).stack == old(self).stack,
            final(self).reachable == old(self).reachable,
            final(self).len_locals == old(self).len_locals,
            final(self).done == old(self).done,
            ty is Empty ==> outcome == Ok::<Option<(Variable, Type)>, IrError>(None)
                && final(self).next_result == old(self).next_result,
            ty matches BlockType::Value(result) ==> {
                if (old(self).next_result as int) < old(self).builder@.vars.types.len() && old(self).builder@.vars.types[old(self).next_result as int] == result.ir_type() {
                    &&& outcome matches Ok(Some((var, told)))
                    &&& var.index() == old(self).next_result
                    &&& told == result.ir_type()
                    &&& final(self).next_result == old(self).next_result + 1
                } else {
                    outcome.is_err() && final(self).next_result == old(self).next_result
                }
            },
            match outcome {
                Ok(result) => {
                    &&& old(self).result_error(ty).is_none()
                    &&& result == old(self).result_var(ty)
                    &&& final(self).next_result == old(self).result_after(ty)
                },
                Err(error) => {
                    &&& old(self).result_error(ty) == Some(error)
                    &&& final(self).next_result == old(self).next_result
                },
            },
    {
        proof {
            self.builder.ctx.vars.lemma_len_bound();
            Variable::lemma_at(self.next_result);
        }
        match ty {
            BlockType::Empty => Ok(None),
            BlockType::Value(ty) => {
                let index = self.next_result;
                if index >= u32::MAX - 1 {
                    return Err(IrError::Wasm(WasmError::FunctionTooLarge));
                }
                let var = Variable::from_u32(index);
                proof {
                    Variable::lemma_same_index(var, Variable::at(index));
                }
                match self.builder.ctx.vars.declared_type(var) {
                    Some(declared) => {
                        if declared != ty.into_type() {
                            return Err(IrError::Wasm(WasmError::UnsupportedOperator));
                        }
                        self.next_result = index + 1;
                        Ok(Some((var, declared)))
                    },
                    None => Err(IrError::Wasm(WasmError::UnsupportedOperator)),
                }
            },
        }
    }

    /// Whether `self` and `outcome` come from `before` by opening a frame
    /// of the given kind and type that control cannot reach: the frame is
    /// opened, and nothing is added to the function.
    pub open spec fn opens_dead(
        &self,
        before: &Self,
        kind: ControlKind,
        ty: BlockType,
        outcome: Result<(), IrError>,
    ) -> bool {
        &&& self.builder@ == before.builder@
        &&& self.stack@ == before.stack@
        &&& self.reachable == before.reachable
        &&& match before.result_error(ty) {
            Some(error) => outcome == Err::<(), IrError>(error) && self.control@
                == before.control@,
            None => {
                &&& outcome.is_ok()
                &&& self.control@.drop_last() == before.control@
                &&& self.control@.last().kind == kind
                &&& self.control@.last().height == before.stack@.len()
                &&& !self.control@.last().live
                &&& self.next_result == before.result_after(ty)
            },
        }
    }

    /// Opens a frame that control cannot reach.
    pub(crate) fn enter_dead(&mut self, kind: ControlKind, ty: BlockType) -> (outcome: Result<(), IrError>)
        requires
            old(self).wf(),
        ensures
            outcome.is_ok() ==> final(self).wf() && final(self).control@.len() == old(self).control@.len() + 1,
            final(self).opens_dead(old(self), kind, ty, outcome),
            final(self).builder == old(self).builder,
            final(self).stack == old(self).stack,
            final(self).reachable == old(self).reachable,
            final(self).done == old(self).done,
    {
        match self.result_of(ty) {
            Ok(_) => {},
            Err(error) => {
                return Err(error);
            },
        }
        let block = self.builder.current_block();
        self.control.push(
            ControlFrame {
                kind,
                target: block,
                end: block,
                alternative: block,
                result: None,
                height: self.stack.len(),
                live: false,
            },
        );
        assert(self.control@.drop_last() =~= old(self).control@);
        Ok(())
    }

    /// Whether `self` and `outcome` come from `before` by opening a frame
    /// of the given kind to which a branch leads behind its end: the
    /// function gets a new block, which is the target and the end of the
    /// new frame. Where the frame cannot have its result or the function
    /// has no room, nothing is added.
    pub open spec fn opens_block(
        &self,
        before: &Self,
        kind: ControlKind,
        ty: BlockType,
        outcome: Result<(), IrError>,
    ) -> bool {
        if before.result_error(ty).is_some() || !before.has_room() {
            &&& outcome == Err::<(), IrError>(
                if before.result_error(ty).is_some() {
                    before.result_error(ty).unwrap()
                } else {
                    IrError::Wasm(WasmError::FunctionTooLarge)
                },
            )
            &&& self.builder@ == before.builder@
            &&& self.control@ == before.control@
        } else {
            &&& outcome.is_ok()
            &&& self.builder@ == before.builder@.with_block()
            &&& self.control@.drop_last() == before.control@
            &&& self.control@.last().opens(
                kind,
                before.builder@.blocks.len(),
                before.result_var(ty),
                before.stack@.len(),
            )
            &&& self.next_result == before.result_after(ty)
        }
    }

    /// Opens a `block`: a branch to it leads behind its end.
    pub(crate) fn enter_block(&mut self, kind: ControlKind, ty: BlockType) -> (outcome: Result<(), IrError>)
        requires
            old(self).wf(),
            old(self).reachable,
        ensures
            outcome.is_ok() ==> final(self).wf() && final(self).reachable
                && final(self).control@.len() == old(self).control@.len() + 1,
            final(self).builder.wf(),
            final(self).stack == old(self).stack,
            final(self).done == old(self).done,
            final(self).opens_block(old(self), kind, ty, outcome),
    {
        let result = match self.result_of(ty) {
            Ok(result) => result,
            Err(error) => {
                return Err(error);
            },
        };
        let end = match self.new_block() {
            Ok(block) => block,
            Err(error) => {
                return Err(error);
            },
        };
        let ghost before = self.control@;
        self.control.push(
            ControlFrame {
                kind,
                target: end,
                end,
                alternative: end,
                result,
                height: self.stack.len(),
                live: true,
            },
        );
        proof {
            assert forall|i: int| 0 <= i < self.control@.len() implies self.frame_wf(
                #[trigger] self.control@[i],
            ) by {
                if i < before.len() {
                    assert(old(self).frame_wf(old(self).control@[i]));
                }
            }
            assert(self.control@.drop_last() =~= old(self).control@);
        }
        Ok(())
    }

    /// Whether `self` and `outcome` come from `before` by opening a `loop`
    /// of the given type: the function gets a new block, the head of the
    /// loop; the current block ends in a branch to the head, and the head
    /// becomes the current block and the target of the new frame. Where
    /// the frame cannot have its result nothing is added; where the
    /// function has no room for the block or for the branch, nothing more.
    pub open spec fn opens_loop(&self, before: &Self, ty: BlockType, outcome: Result<
        (),
        IrError,
    >) -> bool {
        let grown = before.builder@.with_block();
        if before.result_error(ty).is_some() || !before.has_room() {
            &&& outcome == Err::<(), IrError>(
                if before.result_error(ty).is_some() {
                    before.result_error(ty).unwrap()
                } else {
                    IrError::Wasm(WasmError::FunctionTooLarge)
                },
            )
            &&& self.builder@ == before.builder@
            &&& self.control@ == before.control@
        } else if !Self::fits(grown) {
            &&& outcome == Err::<(), IrError>(IrError::Wasm(WasmError::FunctionTooLarge))
            &&& self.builder@ == grown
            &&& self.control@ == before.control@
        } else {
            &&& outcome.is_ok()
            &&& self.control@.drop_last() == before.control@
            &&& self.control@.last().opens(
                ControlKind::Loop,
                before.builder@.blocks.len(),
                before.result_var(ty),
                before.stack@.len(),
            )
            &&& self.next_result == before.result_after(ty)
            &&& self.builder@.current == self.control@.last().target
            &&& (FunctionModel { current: before.builder@.current, ..self.builder@ }).appends_terminal(
                grown,
                crate::instruction::Instruction::Terminal(
                    crate::instruction::TerminalInstr::Br(
                        crate::instruction::BranchInstr { target: self.control@.last().target },
                    ),
                ),
                Seq::empty(),
            )
        }
    }

    /// Opens a `loop`: a branch to it leads to its head.
    pub(crate) fn enter_loop(&mut self, ty: BlockType) -> (outcome: Result<(), IrError>)
        requires
            old(self).wf(),
            old(self).reachable,
        ensures
            outcome.is_ok() ==> final(self).wf() && final(self).reachable
                && final(self).control@.len() == old(self).control@.len() + 1,
            final(self).builder.wf(),
            final(self).stack == old(self).stack,
            final(self).done == old(self).done,
            final(self).opens_loop(old(self), ty, outcome),
    {
        let result = match self.result_of(ty) {
            Ok(result) => result,
            Err(error) => {
                return Err(error);
            },
        };
        let head = match self.new_block() {
            Ok(block) => block,
            Err(error) => {
                return Err(error);
            },
        };
        match self.branch_to(head) {
            Ok(()) => {},
            Err(error) => {
                return Err(error);
            },
        }
        match self.continue_in(head) {
            Ok(()) => {},
            Err(error) => {
                return Err(error);
            },
        }
        let ghost before = self.control@;
        self.control.push(
            ControlFrame {
                kind: ControlKind::Loop,
                target: head,
                end: head,
                alternative: head,
                result,
                height: self.stack.len(),
                live: true,
            },
        );
        proof {
            assert forall|i: int| 0 <= i < self.control@.len() implies self.frame_wf(
                #[trigger] self.control@[i],
            ) by {
                if i < before.len() {
                    assert(old(self).frame_wf(old(self).control@[i]));
                }
            }
            assert(self.control@.drop_last() =~= old(self).control@);
        }
        Ok(())
    }

    /// Whether `after` and `outcome` come from `before` by ending the
    /// current block with a branch by the condition, an integer of 32
    /// bits: the flag that the condition is not zero is appended, and the
    /// branch by the flag, to `taken` if it is set. Where the function has
    /// no room for them nothing is appended, where the builder refuses the
    /// branch the flag alone.
    pub open spec fn splits(
        before: FunctionModel,
        condition: Value,
        taken: Block,
        other: Block,
        after: FunctionModel,
        outcome: Result<(), IrError>,
    ) -> bool {
        let flagged = Self::with_int_to_flag(before, condition);
        if !Self::fits_with(before, 4) {
            outcome == Err::<(), IrError>(IrError::Wasm(WasmError::FunctionTooLarge)) && after
                == before
        } else {
            match FunctionInstrBuilder::if_then_else_error(flagged, taken, other) {
                Some(error) => outcome == Err::<(), IrError>(error) && after == flagged,
                None => outcome.is_ok() && after.appends_terminal(
                    flagged,
                    crate::instruction::Instruction::Terminal(
                        crate::instruction::TerminalInstr::Ite(
                            crate::instruction::IfThenElseInstr {
                                condition: Self::int_to_flag_value(before),
                                then_target: taken,
                                else_target: other,
                            },
                        ),
                    ),
                    seq![Self::int_to_flag_value(before)],
                ),
            }
        }
    }

    /// Whether the function has room for what a branch by a condition adds
    /// to it: a block, the flag and the branch.
    pub open spec fn fits_split(model: FunctionModel) -> bool {
        Self::fits(model) && Self::fits_with(model.with_block(), 4)
    }

    /// The error that a branch by a condition to the frame that lies
    /// `relative_depth` frames below the innermost ends in, if any: the
    /// condition is missing on the stack or no integer of 32 bits, there is
    /// no such frame that control can reach, the function has no room, the
    /// target of the frame is sealed, or the result of the frame cannot be
    /// carried.
    pub open spec fn split_refusal(&self, relative_depth: u32) -> Option<IrError> {
        let stack = self.stack@;
        let frame = self.frame(relative_depth);
        if stack.len() == 0 {
            Some(missing(1, stack))
        } else if stack.last().ty != Type::Int(IntType::I32) {
            Self::operand_error(stack.last(), Type::Int(IntType::I32))
        } else if (relative_depth as int) >= self.control@.len() || !frame.live {
            Some(IrError::Wasm(WasmError::MissingControlFrame { relative_depth }))
        } else if !Self::fits_split(self.builder@) {
            Some(IrError::Wasm(WasmError::FunctionTooLarge))
        } else if self.builder@.block(frame.target).sealed {
            Some(
                IrError::FunctionBuilder(
                    crate::error::FunctionBuilderError::PredecessorForSealedBlock {
                        sealed_block: frame.target,
                        new_pred: self.builder@.current,
                    },
                ),
            )
        } else {
            Self::carry_error_on(self.builder@, stack.drop_last(), frame)
        }
    }

    /// Whether `self` and `outcome` come from `before` by a branch by a
    /// condition to the frame that lies `relative_depth` frames below the
    /// innermost: the condition is popped, the result of the frame is
    /// carried, and the current block ends in a branch to the target of
    /// the frame if the condition is not zero, to a new block if it is.
    /// That block is sealed and becomes the current block. Where the
    /// branch is refused, nothing changes.
    pub open spec fn branched_on(&self, before: &Self, relative_depth: u32, outcome: Result<
        (),
        IrError,
    >) -> bool {
        let stack = before.stack@;
        let frame = before.frame(relative_depth);
        let carried = Self::carried_on(before.builder@, stack.drop_last(), frame);
        let next = carried.next_block();
        match before.split_refusal(relative_depth) {
            Some(error) => {
                &&& outcome == Err::<(), IrError>(error)
                &&& self.builder@ == before.builder@
                &&& self.stack@ == before.stack@
                &&& self.reachable == before.reachable
            },
            None => {
                &&& outcome.is_ok()
                &&& self.stack@ == stack.drop_last()
                &&& self.reachable
                &&& exists|split: FunctionModel|
                    {
                        &&& #[trigger] Self::splits(
                            carried.with_block(),
                            stack.last().value,
                            frame.target,
                            next,
                            split,
                            Ok(()),
                        )
                        &&& self.builder@ == split.with_sealed(next).with_current(next)
                    }
            },
        }
    }

    /// Ends the current basic block with a branch to one of two blocks by
    /// the condition, an integer of 32 bits: to `taken` if it is not zero.
    pub(crate) fn branch_if(&mut self, condition: Value, taken: Block, other: Block) -> (outcome: Result<
        (),
        IrError,
    >)
        requires
            old(self).wf(),
            old(self).builder@.has_value(condition),
            old(self).reachable,
            old(self).builder@.has_block(taken),
            old(self).builder@.has_block(other),
        ensures
            final(self).same_frames(old(self)),
            final(self).stack == old(self).stack,
            final(self).builder.wf(),
            final(self).builder@.blocks.len() == old(self).builder@.blocks.len(),
            !final(self).reachable,
            final(self).wf(),
            Self::splits(old(self).builder@, condition, taken, other, final(self).builder@, outcome),
    {
        if !self.check_room_for(4) {
            self.reachable = false;
            return Err(IrError::Wasm(WasmError::FunctionTooLarge));
        }
        let flag = self.emit_int_to_flag(condition);
        self.reachable = false;
        match self.room() {
            Ok(()) => {},
            Err(error) => {
                return Err(error);
            },
        }
        let ins = match self.builder.ins() {
            Ok(ins) => ins,
            Err(error) => {
                return Err(error);
            },
        };
        match ins.if_then_else(flag, taken, other) {
            Ok(_) => Ok(()),
            Err(error) => Err(error),
        }
    }

    /// Whether `self` and `outcome` come from `before` by opening an `if`
    /// of the given type: the condition is popped; the function gets three
    /// new blocks, for the first branch, for the second branch and for
    /// what follows the `if`; the current block ends in a branch by the
    /// condition to the first two of them, which are sealed; the block of
    /// the first branch becomes the current block, and the new frame has
    /// the third block as its target and its end. Where the function has
    /// no room, or the builder refuses the branch, nothing more is added.
    pub open spec fn opens_if(&self, before: &Self, ty: BlockType, outcome: Result<
        (),
        IrError,
    >) -> bool {
        let stack = before.stack@;
        let one = before.builder@.with_block();
        let two = one.with_block();
        let grown = two.with_block();
        let first = before.builder@.next_block();
        let second = one.next_block();
        let end = two.next_block();
        if stack.len() == 0 {
            &&& outcome == Err::<(), IrError>(missing(1, stack))
            &&& self.builder@ == before.builder@
            &&& self.stack@ == stack
            &&& self.control@ == before.control@
        } else if stack.last().ty != Type::Int(IntType::I32) {
            &&& Some(outcome.unwrap_err()) == Self::operand_error(
                stack.last(),
                Type::Int(IntType::I32),
            )
            &&& outcome.is_err()
            &&& self.builder@ == before.builder@
            &&& self.stack@ == stack
            &&& self.control@ == before.control@
        } else if before.result_error(ty).is_some() {
            &&& outcome == Err::<(), IrError>(before.result_error(ty).unwrap())
            &&& self.builder@ == before.builder@
            &&& self.stack@ == stack.drop_last()
            &&& self.control@ == before.control@
        } else if !Self::fits(before.builder@) || !Self::fits(one) || !Self::fits(two) {
            &&& outcome == Err::<(), IrError>(IrError::Wasm(WasmError::FunctionTooLarge))
            &&& self.builder@ == if !Self::fits(before.builder@) {
                before.builder@
            } else if !Self::fits(one) {
                one
            } else {
                two
            }
            &&& self.stack@ == stack.drop_last()
            &&& self.control@ == before.control@
        } else {
            &&& self.stack@ == stack.drop_last()
            &&& exists|split: FunctionModel, inner: Result<(), IrError>|
                {
                    &&& #[trigger] Self::splits(
                        grown,
                        stack.last().value,
                        first,
                        second,
                        split,
                        inner,
                    )
                    &&& match inner {
                        Err(error) => {
                            &&& outcome == Err::<(), IrError>(error)
                            &&& self.builder@ == split
                            &&& self.control@ == before.control@
                        },
                        Ok(()) => {
                            &&& outcome.is_ok()
                            &&& self.builder@ == split.with_sealed(first).with_sealed(
                                second,
                            ).with_current(first)
                            &&& self.control@.drop_last() == before.control@
                            &&& self.control@.last().kind == ControlKind::If
                            &&& self.control@.last().target == end
                            &&& self.control@.last().end == end
                            &&& self.control@.last().alternative == second
                            &&& self.control@.last().result == before.result_var(ty)
                            &&& self.next_result == before.result_after(ty)
                            &&& self.control@.last().height == stack.len() - 1
                            &&& self.control@.last().live
                        },
                    }
                }
        }
    }

    /// Opens an `if`: pops the condition and continues in the first branch.
    pub(crate) fn enter_if(&mut self, ty: BlockType) -> (outcome: Result<(), IrError>)
        requires
            old(self).wf(),
            old(self).reachable,
        ensures
            outcome.is_ok() ==> final(self).wf() && final(self).reachable
                && final(self).control@.len() == old(self).control@.len() + 1,
            final(self).builder.wf(),
            final(self).done == old(self).done,
            final(self).opens_if(old(self), ty, outcome),
    {
        let condition = match self.pop_typed(Type::Int(IntType::I32)) {
            Ok(value) => value,
            Err(error) => {
                return Err(error);
            },
        };
        let result = match self.result_of(ty) {
            Ok(result) => result,
            Err(error) => {
                return Err(error);
            },
        };
        let ghost start = self.builder@;
        let first = match self.new_block() {
            Ok(block) => block,
            Err(error) => {
                return Err(error);
            },
        };
        let second = match self.new_block() {
            Ok(block) => block,
            Err(error) => {
                return Err(error);
            },
        };
        let end = match self.new_block() {
            Ok(block) => block,
            Err(error) => {
                return Err(error);
            },
        };
        proof {
            Block::lemma_at(start.blocks.len() as u32);
            Block::lemma_at((start.blocks.len() + 1) as u32);
            Block::lemma_at((start.blocks.len() + 2) as u32);
            Block::lemma_same_index(first, start.next_block());
            Block::lemma_same_index(second, start.with_block().next_block());
            Block::lemma_same_index(end, start.with_block().with_block().next_block());
        }
        let inner = self.branch_if(condition, first, second);
        let ghost split = self.builder@;
        match inner {
            Ok(()) => {},
            Err(error) => {
                return Err(error);
            },
        }
        match self.seal(first) {
            Ok(()) => {},
            Err(error) => {
                return Err(error);
            },
        }
        match self.seal(second) {
            Ok(()) => {},
            Err(error) => {
                return Err(error);
            },
        }
        match self.continue_in(first) {
            Ok(()) => {},
            Err(error) => {
                return Err(error);
            },
        }
        let ghost before = self.control@;
        self.control.push(
            ControlFrame {
                kind: ControlKind::If,
                target: end,
                end,
                alternative: second,
                result,
                height: self.stack.len(),
                live: true,
            },
        );
        proof {
            assert forall|i: int| 0 <= i < self.control@.len() implies self.frame_wf(
                #[trigger] self.control@[i],
            ) by {
                if i < before.len() {
                    assert(old(self).frame_wf(old(self).control@[i]));
                }
            }
            assert(self.control@.drop_last() =~= old(self).control@);
            assert(Self::splits(
                start.with_block().with_block().with_block(),
                condition,
                first,
                second,
                split,
                inner,
            ));
        }
        Ok(())
    }

    /// Carries the result of the frame, if it has one, from the top of the
    /// stack to the end of the frame, and branches to the target of the
    /// frame. Pops the result if asked to.
    pub(crate) fn leave_to(&mut self, frame: ControlFrame, pop: bool) -> (outcome: Result<(), IrError>)
        requires
            old(self).wf(),
            old(self).reachable,
            frame.live,
            old(self).frame_wf(frame),
        ensures
            final(self).same_frames(old(self)),
            final(self).builder.wf(),
            final(self).builder@.blocks.len() == old(self).builder@.blocks.len(),
            outcome.is_ok() ==> final(self).wf() && !final(self).reachable,
            final(self).leaves(old(self), frame, outcome),
            final(self).stack@ == if pop && Self::carries(frame) && old(self).carry_error(
                frame,
            ).is_none() {
                old(self).stack@.drop_last()
            } else {
                old(self).stack@
            },
    {
        match self.carry_result(frame) {
            Ok(()) => {},
            Err(error) => {
                return Err(error);
            },
        }
        if pop && frame.kind != ControlKind::Loop && frame.result.is_some() {
            let _ = self.stack.pop1();
        }
        self.branch_to(frame.target)
    }

    /// Returns the frame that lies `relative_depth` frames below the innermost.
    pub(crate) fn frame_at(&self, relative_depth: u32) -> (outcome: Result<ControlFrame, IrError>)
        requires
            self.wf(),
        ensures
            match outcome {
                Ok(frame) => (relative_depth as int) < self.control@.len() && frame
                    == self.control@[self.control@.len() - 1 - relative_depth] && self.frame_wf(
                    frame,
                ),
                Err(error) => (relative_depth as int) >= self.control@.len() && error
                    == IrError::Wasm(WasmError::MissingControlFrame { relative_depth }),
            },
    {
        let depth = relative_depth as usize;
        if depth >= self.control.len() {
            return Err(IrError::Wasm(WasmError::MissingControlFrame { relative_depth }));
        }
        Ok(self.control[self.control.len() - 1 - depth])
    }

    /// The frame that lies `relative_depth` frames below the innermost.
    pub open spec fn frame(&self, relative_depth: u32) -> ControlFrame {
        self.control@[self.control@.len() - 1 - relative_depth]
    }

    /// The error that a branch to the frame ends in, if any: the result of
    /// the frame cannot be carried, the function has no room for the
    /// branch, or the builder refuses the branch.
    pub open spec fn branch_refusal(&self, frame: ControlFrame) -> Option<IrError> {
        if self.carry_error(frame).is_some() {
            self.carry_error(frame)
        } else if !self.has_room() {
            Some(IrError::Wasm(WasmError::FunctionTooLarge))
        } else {
            FunctionInstrBuilder::branch_error(self.builder@, frame.target)
        }
    }

    /// Whether `self` and `outcome` come from `before` by a branch to the
    /// frame that lies `relative_depth` frames below the innermost: the
    /// result of the frame is carried and the current block ends in a
    /// branch to its target. Where there is no such frame that control
    /// can reach, or the branch is refused, nothing changes.
    pub open spec fn branched(&self, before: &Self, relative_depth: u32, outcome: Result<
        (),
        IrError,
    >) -> bool {
        let frame = before.frame(relative_depth);
        let refusal = if (relative_depth as int) >= before.control@.len() || !frame.live {
            Some(IrError::Wasm(WasmError::MissingControlFrame { relative_depth }))
        } else {
            before.branch_refusal(frame)
        };
        match refusal {
            Some(error) => {
                &&& outcome == Err::<(), IrError>(error)
                &&& self.builder@ == before.builder@
                &&& self.reachable == before.reachable
            },
            None => {
                &&& outcome.is_ok()
                &&& !self.reachable
                &&& self.builder@.appends_terminal(
                    before.carried(frame),
                    crate::instruction::Instruction::Terminal(
                        crate::instruction::TerminalInstr::Br(
                            crate::instruction::BranchInstr { target: frame.target },
                        ),
                    ),
                    Seq::empty(),
                )
            },
        }
    }

    /// Returns the error that carrying the result of the frame would end
    /// in, if any.
    pub(crate) fn check_carry(&self, frame: ControlFrame) -> (outcome: Result<(), IrError>)
        requires
            self.wf(),
        ensures
            outcome == match self.carry_error(frame) {
                Some(error) => Err::<(), IrError>(error),
                None => Ok::<(), IrError>(()),
            },
    {
        if frame.kind != ControlKind::Loop {
            match frame.result {
                Some((var, ty)) => {
                    match self.peek_typed(ty) {
                        Ok(_) => {},
                        Err(error) => {
                            return Err(error);
                        },
                    }
                    if !self.builder.ctx.vars.is_declared(var) {
                        return Err(IrError::Wasm(WasmError::UnsupportedOperator));
                    }
                },
                None => {},
            }
        }
        Ok(())
    }

    /// Branches to the frame: what follows cannot be reached.
    pub(crate) fn branch(&mut self, relative_depth: u32) -> (outcome: Result<(), IrError>)
        requires
            old(self).wf(),
            old(self).reachable,
        ensures
            final(self).same_frames(old(self)),
            final(self).builder.wf(),
            outcome.is_ok() ==> final(self).wf() && !final(self).reachable,
            final(self).stack@ == old(self).stack@,
            final(self).branched(old(self), relative_depth, outcome),
    {
        let frame = match self.frame_at(relative_depth) {
            Ok(frame) => frame,
            Err(error) => {
                return Err(error);
            },
        };
        if !frame.live {
            return Err(IrError::Wasm(WasmError::MissingControlFrame { relative_depth }));
        }
        // Nothing is changed before the branch is known to succeed.
        match self.check_carry(frame) {
            Ok(()) => {},
            Err(error) => {
                return Err(error);
            },
        }
        match self.room() {
            Ok(()) => {},
            Err(error) => {
                return Err(error);
            },
        }
        if self.builder.ctx.block(frame.target).sealed {
            return Err(
                IrError::FunctionBuilder(
                    crate::error::FunctionBuilderError::PredecessorForSealedBlock {
                        sealed_block: frame.target,
                        new_pred: self.builder.current_block(),
                    },
                ),
            );
        }
        self.leave_to(frame, false)
    }

    /// Pops the condition and branches to the frame if it is not zero;
    /// continues in a new block if it is.
    pub(crate) fn branch_on(&mut self, relative_depth: u32) -> (outcome: Result<(), IrError>)
        requires
            old(self).wf(),
            old(self).reachable,
        ensures
            final(self).len_locals == old(self).len_locals,
            final(self).next_result == old(self).next_result,
            final(self).builder.wf(),
            final(self).control@ == old(self).control@,
            final(self).done == old(self).done,
            outcome.is_ok() ==> final(self).wf() && final(self).reachable,
            final(self).branched_on(old(self), relative_depth, outcome),
    {
        let condition = match self.pop_typed(Type::Int(IntType::I32)) {
            Ok(value) => value,
            Err(error) => {
                return Err(error);
            },
        };
        proof {
            assert(old(self).builder@.has_value(
                old(self).stack@[old(self).stack@.len() - 1].value,
            ));
        }
        // Nothing but the stack is changed before the branch is known to
        // succeed, and the condition goes back where it does not.
        let frame = match self.frame_at(relative_depth) {
            Ok(frame) => frame,
            Err(error) => {
                self.stack.push(condition, Type::Int(IntType::I32));
                assert(self.stack@ =~= old(self).stack@);
                return Err(error);
            },
        };
        if !frame.live {
            self.stack.push(condition, Type::Int(IntType::I32));
            assert(self.stack@ =~= old(self).stack@);
            return Err(IrError::Wasm(WasmError::MissingControlFrame { relative_depth }));
        }
        if !self.check_room_for_split() {
            self.stack.push(condition, Type::Int(IntType::I32));
            assert(self.stack@ =~= old(self).stack@);
            return Err(IrError::Wasm(WasmError::FunctionTooLarge));
        }
        if self.builder.ctx.block(frame.target).sealed {
            self.stack.push(condition, Type::Int(IntType::I32));
            assert(self.stack@ =~= old(self).stack@);
            return Err(
                IrError::FunctionBuilder(
                    crate::error::FunctionBuilderError::PredecessorForSealedBlock {
                        sealed_block: frame.target,
                        new_pred: self.builder.current_block(),
                    },
                ),
            );
        }
        match self.carry_result(frame) {
            Ok(()) => {},
            Err(error) => {
                self.stack.push(condition, Type::Int(IntType::I32));
                assert(self.stack@ =~= old(self).stack@);
                return Err(error);
            },
        }
        let ghost carried = self.builder@;
        let next = match self.new_block() {
            Ok(block) => block,
            Err(error) => {
                return Err(error);
            },
        };
        proof {
            Block::lemma_at(carried.blocks.len() as u32);
            Block::lemma_same_index(next, carried.next_block());
        }
        let ghost grown = self.builder@;
        match self.branch_if(condition, frame.target, next) {
            Ok(()) => {},
            Err(error) => {
                return Err(error);
            },
        }
        let ghost split = self.builder@;
        proof {
            assert(Self::splits(grown, condition, frame.target, next, split, Ok(())));
        }
        match self.seal(next) {
            Ok(()) => {},
            Err(error) => {
                return Err(error);
            },
        }
        self.continue_in(next)
    }

    /// Returns `true` if the function has room for what a branch by a
    /// condition adds to it.
    pub(crate) fn check_room_for_split(&self) -> (room: bool)
        ensures
            room == Self::fits_split(self.builder@),
    {
        let blocks = self.builder.ctx.len_blocks() as u128;
        let instrs = self.builder.ctx.len_instrs() as u128;
        let values = self.builder.ctx.len_values() as u128;
        blocks + 9 < u32::MAX as u128 && instrs + blocks + 21 < u32::MAX as u128 && values + blocks
            + 21 < u32::MAX as u128
    }

    /// Carries the top of the stack to the end of the frame, if the frame
    /// has a result and is no loop.
    pub(crate) fn carry_result(&mut self, frame: ControlFrame) -> (outcome: Result<(), IrError>)
        requires
            old(self).wf(),
            old(self).reachable,
        ensures
            final(self).wf(),
            final(self).reachable,
            final(self).same_frames(old(self)),
            final(self).stack == old(self).stack,
            final(self).builder@.blocks.len() == old(self).builder@.blocks.len(),
            match old(self).carry_error(frame) {
                Some(error) => outcome == Err::<(), IrError>(error) && final(self).builder@ == old(self).builder@,
                None => outcome.is_ok() && final(self).builder@ == old(self).carried(frame),
            },
    {
        if frame.kind != ControlKind::Loop {
            match frame.result {
                Some((var, ty)) => {
                    let value = match self.peek_typed(ty) {
                        Ok(value) => value,
                        Err(error) => {
                            return Err(error);
                        },
                    };
                    if !self.builder.ctx.vars.is_declared(var) {
                        return Err(IrError::Wasm(WasmError::UnsupportedOperator));
                    }
                    let block = self.builder.current_block();
                    self.builder.define(var, block, value);
                },
                None => {},
            }
        }
        Ok(())
    }

    /// The frame that lies `relative_depth` frames below the innermost of
    /// the given frames.
    pub open spec fn frame_in(control: Seq<ControlFrame>, relative_depth: u32) -> ControlFrame {
        control[control.len() - 1 - relative_depth]
    }

    /// The error that a branch to the frame that lies `relative_depth`
    /// frames below the innermost ends in before the branch is appended,
    /// if any: there is no such frame that control can reach, or its
    /// result cannot be carried.
    pub open spec fn target_error(
        model: FunctionModel,
        stack: Seq<ValueEntry>,
        control: Seq<ControlFrame>,
        relative_depth: u32,
    ) -> Option<IrError> {
        if (relative_depth as int) >= control.len() || !Self::frame_in(
            control,
            relative_depth,
        ).live {
            Some(IrError::Wasm(WasmError::MissingControlFrame { relative_depth }))
        } else {
            Self::carry_error_on(model, stack, Self::frame_in(control, relative_depth))
        }
    }

    /// The first error that branches to the frames at the given depths end
    /// in before a branch is appended, if any, where the result of each
    /// frame is carried in turn.
    pub open spec fn table_error(
        model: FunctionModel,
        stack: Seq<ValueEntry>,
        control: Seq<ControlFrame>,
        depths: Seq<u32>,
    ) -> Option<IrError>
        decreases depths.len(),
    {
        if depths.len() == 0 {
            None
        } else {
            match Self::table_error(model, stack, control, depths.drop_last()) {
                Some(error) => Some(error),
                None => Self::target_error(
                    Self::table_carried(model, stack, control, depths.drop_last()),
                    stack,
                    control,
                    depths.last(),
                ),
            }
        }
    }

    /// The function after the results of the frames at the given depths
    /// were carried in turn.
    pub open spec fn table_carried(
        model: FunctionModel,
        stack: Seq<ValueEntry>,
        control: Seq<ControlFrame>,
        depths: Seq<u32>,
    ) -> FunctionModel
        decreases depths.len(),
    {
        if depths.len() == 0 {
            model
        } else {
            Self::carried_on(
                Self::table_carried(model, stack, control, depths.drop_last()),
                stack,
                Self::frame_in(control, depths.last()),
            )
        }
    }

    /// The targets of the frames at the given depths.
    pub open spec fn table_targets(control: Seq<ControlFrame>, depths: Seq<u32>) -> Seq<Block> {
        Seq::new(depths.len(), |i: int| Self::frame_in(control, depths[i]).target)
    }

    /// An error among the first of the frames is the error among all of them.
    pub proof fn lemma_table_error(
        model: FunctionModel,
        stack: Seq<ValueEntry>,
        control: Seq<ControlFrame>,
        depths: Seq<u32>,
        len: int,
    )
        requires
            0 <= len <= depths.len(),
            Self::table_error(model, stack, control, depths.take(len)).is_some(),
        ensures
            Self::table_error(model, stack, control, depths) == Self::table_error(
                model,
                stack,
                control,
                depths.take(len),
            ),
        decreases depths.len() - len,
    {
        if len < depths.len() {
            assert(depths.take(len + 1).drop_last() =~= depths.take(len));
            Self::lemma_table_error(model, stack, control, depths, len + 1);
        } else {
            assert(depths.take(len) =~= depths);
        }
    }

    /// Whether `after` is `before` with a branch by the index to one of
    /// the blocks of the table at the end of the current block, or to the
    /// default block for an index beyond the table.
    pub open spec fn appends_table(
        after: FunctionModel,
        before: FunctionModel,
        case: Value,
        default: Block,
        table: Vec<Block>,
    ) -> bool {
        after.appends_terminal(
            before,
            crate::instruction::Instruction::Terminal(
                crate::instruction::TerminalInstr::BranchTable(
                    crate::instruction::BranchTableInstr { case, default, targets: table },
                ),
            ),
            seq![case],
        )
    }

    /// Carrying results changes nothing of a function but the definitions
    /// of variables.
    pub proof fn lemma_table_carried(
        model: FunctionModel,
        stack: Seq<ValueEntry>,
        control: Seq<ControlFrame>,
        depths: Seq<u32>,
    )
        ensures
            Self::table_carried(model, stack, control, depths) == (FunctionModel {
                vars: Self::table_carried(model, stack, control, depths).vars,
                ..model
            }),
            Self::table_carried(model, stack, control, depths).vars.types == model.vars.types,
        decreases depths.len(),
    {
        if depths.len() > 0 {
            Self::lemma_table_carried(model, stack, control, depths.drop_last());
        }
    }

    /// Which of the blocks is the first that is sealed depends on the
    /// blocks of the function alone.
    pub proof fn lemma_first_sealed_same(one: FunctionModel, other: FunctionModel, blocks: Seq<Block>)
        requires
            one.blocks == other.blocks,
        ensures
            FunctionInstrBuilder::first_sealed(one, blocks) == FunctionInstrBuilder::first_sealed(
                other,
                blocks,
            ),
        decreases blocks.len(),
    {
        if blocks.len() > 0 {
            Self::lemma_first_sealed_same(one, other, blocks.drop_last());
        }
    }

    /// The error that a branch by an index to one of the frames at the
    /// given depths, or to the frame at the default depth, ends in, if
    /// any: the index is missing on the stack or no integer of 32 bits,
    /// one of the frames is missing or cannot have its result carried, the
    /// function has no room, or the builder refuses the branch.
    pub open spec fn table_refusal(&self, targets: Seq<u32>, default: u32) -> Option<IrError> {
        let stack = self.stack@;
        let rest = stack.drop_last();
        let depths = seq![default] + targets;
        let blocks = Self::table_targets(self.control@, targets);
        let default_block = Self::frame_in(self.control@, default).target;
        if stack.len() == 0 {
            Some(missing(1, stack))
        } else if stack.last().ty != Type::Int(IntType::I32) {
            Self::operand_error(stack.last(), Type::Int(IntType::I32))
        } else if Self::table_error(self.builder@, rest, self.control@, depths).is_some() {
            Self::table_error(self.builder@, rest, self.control@, depths)
        } else if !self.has_room() {
            Some(IrError::Wasm(WasmError::FunctionTooLarge))
        } else {
            FunctionInstrBuilder::branch_table_error(self.builder@, default_block, blocks)
        }
    }

    /// Whether `self` and `outcome` come from `before` by a branch by an
    /// index to one of the frames at the given depths, or to the frame at
    /// the default depth for an index beyond them: the index is popped,
    /// the results of the default frame and of the other frames are
    /// carried in turn, and the current block ends in a branch by the
    /// index to the targets of the frames. Where the branch is refused,
    /// nothing changes.
    pub open spec fn branched_by(
        &self,
        before: &Self,
        targets: Seq<u32>,
        default: u32,
        outcome: Result<(), IrError>,
    ) -> bool {
        let stack = before.stack@;
        let rest = stack.drop_last();
        let depths = seq![default] + targets;
        let carried = Self::table_carried(before.builder@, rest, before.control@, depths);
        let blocks = Self::table_targets(before.control@, targets);
        let default_block = Self::frame_in(before.control@, default).target;
        match before.table_refusal(targets, default) {
            Some(error) => {
                &&& outcome == Err::<(), IrError>(error)
                &&& self.builder@ == before.builder@
                &&& self.stack@ == before.stack@
                &&& self.reachable == before.reachable
            },
            None => {
                &&& outcome.is_ok()
                &&& self.stack@ == rest
                &&& !self.reachable
                &&& exists|table: Vec<Block>|
                    table@ == blocks && #[trigger] Self::appends_table(
                        self.builder@,
                        carried,
                        stack.last().value,
                        default_block,
                        table,
                    )
            },
        }
    }

    /// Returns the target of the frame that lies `relative_depth` frames
    /// below the innermost, or the error that a branch to it would end in
    /// before it is appended.
    pub(crate) fn check_target(&self, relative_depth: u32) -> (outcome: Result<Block, IrError>)
        requires
            self.wf(),
        ensures
            match outcome {
                Ok(target) => {
                    &&& Self::target_error(
                        self.builder@,
                        self.stack@,
                        self.control@,
                        relative_depth,
                    ).is_none()
                    &&& target == Self::frame_in(self.control@, relative_depth).target
                    &&& self.builder@.has_block(target)
                },
                Err(error) => Self::target_error(
                    self.builder@,
                    self.stack@,
                    self.control@,
                    relative_depth,
                ) == Some(error),
            },
    {
        let frame = match self.frame_at(relative_depth) {
            Ok(frame) => frame,
            Err(error) => {
                return Err(error);
            },
        };
        if !frame.live {
            return Err(IrError::Wasm(WasmError::MissingControlFrame { relative_depth }));
        }
        match self.check_carry(frame) {
            Ok(()) => Ok(frame.target),
            Err(error) => Err(error),
        }
    }

    /// Carries the result of the frame that lies `relative_depth` frames
    /// below the innermost to its end and returns the target of the frame.
    pub(crate) fn carry_to(&mut self, relative_depth: u32) -> (outcome: Result<Block, IrError>)
        requires
            old(self).wf(),
            old(self).reachable,
        ensures
            final(self).wf(),
            final(self).reachable,
            final(self).same_frames(old(self)),
            final(self).stack == old(self).stack,
            match outcome {
                Ok(target) => {
                    &&& Self::target_error(
                        old(self).builder@,
                        old(self).stack@,
                        old(self).control@,
                        relative_depth,
                    ).is_none()
                    &&& target == Self::frame_in(old(self).control@, relative_depth).target
                    &&& final(self).builder@.has_block(target)
                    &&& final(self).builder@ == Self::carried_on(
                        old(self).builder@,
                        old(self).stack@,
                        Self::frame_in(old(self).control@, relative_depth),
                    )
                },
                Err(error) => {
                    &&& Self::target_error(
                        old(self).builder@,
                        old(self).stack@,
                        old(self).control@,
                        relative_depth,
                    ) == Some(error)
                    &&& final(self).builder@ == old(self).builder@
                },
            },
    {
        let frame = match self.frame_at(relative_depth) {
            Ok(frame) => frame,
            Err(error) => {
                return Err(error);
            },
        };
        if !frame.live {
            return Err(IrError::Wasm(WasmError::MissingControlFrame { relative_depth }));
        }
        match self.carry_result(frame) {
            Ok(()) => Ok(frame.target),
            Err(error) => Err(error),
        }
    }

    /// Pops the index and branches to the frame that it selects among the
    /// given frames, or to the default frame if it is beyond them: what
    /// follows cannot be reached.
    pub(crate) fn branch_table(&mut self, targets: &Vec<u32>, default: u32) -> (outcome: Result<(), IrError>)
        requires
            old(self).wf(),
            old(self).reachable,
        ensures
            final(self).len_locals == old(self).len_locals,
            final(self).next_result == old(self).next_result,
            final(self).builder.wf(),
            final(self).control@ == old(self).control@,
            final(self).done == old(self).done,
            outcome.is_ok() ==> final(self).wf() && !final(self).reachable,
            final(self).branched_by(old(self), targets@, default, outcome),
    {
        let index = match self.pop_typed(Type::Int(IntType::I32)) {
            Ok(value) => value,
            Err(error) => {
                return Err(error);
            },
        };
        proof {
            assert(old(self).builder@.has_value(
                old(self).stack@[old(self).stack@.len() - 1].value,
            ));
        }
        let ghost start = self.builder@;
        let ghost rest = self.stack@;
        let ghost control = self.control@;
        let ghost depths = seq![default] + targets@;
        proof {
            let none = depths.take(1).drop_last();
            assert(none.len() == 0);
            assert(Self::table_error(start, rest, control, none).is_none());
            assert(Self::table_carried(start, rest, control, none) == start);
            assert(depths.take(1).last() == default);
        }
        // Nothing but the stack is changed before the branch is known to
        // succeed, and the index goes back where it does not.
        let default_block = match self.check_target(default) {
            Ok(block) => block,
            Err(error) => {
                proof {
                    Self::lemma_table_error(start, rest, control, depths, 1);
                }
                self.stack.push(index, Type::Int(IntType::I32));
                assert(self.stack@ =~= old(self).stack@);
                return Err(error);
            },
        };
        let mut blocks: Vec<Block> = Vec::new();
        let mut i: usize = 0;
        proof {
            assert(blocks@ =~= Self::table_targets(control, targets@.take(0)));
        }
        while i < targets.len()
            invariant
                i <= targets@.len(),
                self.wf(),
                self.reachable == old(self).reachable,
                self.reachable,
                self.control@ == control,
                control == old(self).control@,
                self.done == old(self).done,
                self.len_locals == old(self).len_locals,
                self.next_result == old(self).next_result,
                self.stack@ == rest,
                self.builder@ == start,
                old(self).stack@.len() > 0,
                old(self).stack@.last() == (ValueEntry { value: index, ty: Type::Int(IntType::I32) }),
                rest == old(self).stack@.drop_last(),
                start == old(self).builder@,
                start.has_value(index),
                start.has_block(default_block),
                default_block == Self::frame_in(control, default).target,
                depths == seq![default] + targets@,
                Self::table_error(start, rest, control, depths.take(i + 1)).is_none(),
                blocks@ == Self::table_targets(control, targets@.take(i as int)),
                forall|j: int| 0 <= j < blocks@.len() ==> start.has_block(#[trigger] blocks@[j]),
            decreases targets@.len() - i,
        {
            proof {
                assert(depths.take(i + 2).drop_last() =~= depths.take(i + 1));
                assert(depths.take(i + 2).last() == targets@[i as int]);
                Self::lemma_table_carried(start, rest, control, depths.take(i + 1));
            }
            let target = match self.check_target(targets[i]) {
                Ok(block) => block,
                Err(error) => {
                    proof {
                        Self::lemma_table_error(start, rest, control, depths, i + 2);
                    }
                    self.stack.push(index, Type::Int(IntType::I32));
                    assert(self.stack@ =~= old(self).stack@);
                    return Err(error);
                },
            };
            blocks.push(target);
            proof {
                assert(blocks@ =~= Self::table_targets(control, targets@.take(i + 1)));
            }
            i = i + 1;
        }
        proof {
            assert(depths.take(i + 1) =~= depths);
            assert(targets@.take(i as int) =~= targets@);
        }
        if !self.check_room() {
            self.stack.push(index, Type::Int(IntType::I32));
            assert(self.stack@ =~= old(self).stack@);
            return Err(IrError::Wasm(WasmError::FunctionTooLarge));
        }
        match self.builder.branch_table_refusal(default_block, &blocks) {
            Some(error) => {
                self.stack.push(index, Type::Int(IntType::I32));
                assert(self.stack@ =~= old(self).stack@);
                return Err(error);
            },
            None => {},
        }
        // The results of the frames are carried.
        proof {
            let none = depths.take(1).drop_last();
            assert(Self::table_carried(start, rest, control, none) == start);
            assert(Self::table_error(start, rest, control, depths.take(1)).is_none()) by {
                Self::lemma_table_prefix(start, rest, control, depths, 1);
            }
        }
        match self.carry_to(default) {
            Ok(_) => {},
            Err(error) => {
                return Err(error);
            },
        }
        let mut k: usize = 0;
        while k < targets.len()
            invariant
                k <= targets@.len(),
                self.wf(),
                self.reachable,
                self.control@ == control,
                control == old(self).control@,
                self.done == old(self).done,
                self.len_locals == old(self).len_locals,
                self.next_result == old(self).next_result,
                self.stack@ == rest,
                depths == seq![default] + targets@,
                Self::table_error(start, rest, control, depths).is_none(),
                self.builder@ == Self::table_carried(start, rest, control, depths.take(k + 1)),
            decreases targets@.len() - k,
        {
            proof {
                assert(depths.take(k + 2).drop_last() =~= depths.take(k + 1));
                assert(depths.take(k + 2).last() == targets@[k as int]);
                Self::lemma_table_prefix(start, rest, control, depths, k + 2);
            }
            match self.carry_to(targets[k]) {
                Ok(_) => {},
                Err(error) => {
                    return Err(error);
                },
            }
            k = k + 1;
        }
        proof {
            assert(depths.take(k + 1) =~= depths);
            Self::lemma_table_carried(start, rest, control, depths);
            Self::lemma_first_sealed_same(self.builder@, start, seq![default_block] + blocks@);
        }
        self.reachable = false;
        let ghost carried = self.builder@;
        let ghost table = blocks;
        let ins = match self.builder.ins() {
            Ok(ins) => ins,
            Err(error) => {
                return Err(error);
            },
        };
        match ins.br_table(index, default_block, blocks) {
            Ok(_) => {
                proof {
                    assert(Self::appends_table(self.builder@, carried, index, default_block, table));
                }
                Ok(())
            },
            Err(error) => Err(error),
        }
    }

    /// Where none of the frames has an error, none of the first has.
    pub proof fn lemma_table_prefix(
        model: FunctionModel,
        stack: Seq<ValueEntry>,
        control: Seq<ControlFrame>,
        depths: Seq<u32>,
        len: int,
    )
        requires
            0 <= len <= depths.len(),
            Self::table_error(model, stack, control, depths).is_none(),
        ensures
            Self::table_error(model, stack, control, depths.take(len)).is_none(),
    {
        if Self::table_error(model, stack, control, depths.take(len)).is_some() {
            Self::lemma_table_error(model, stack, control, depths, len);
        }
    }

    /// Whether `self` and `outcome` come from `before` by turning from the
    /// first branch of the innermost frame, an `if`, to its second branch:
    /// the code of the first branch is ended, its result popped and the
    /// stack cut to the height at which the frame was entered, and the
    /// block of the second branch becomes the current block. A frame that
    /// control cannot reach only turns.
    pub open spec fn turned(&self, before: &Self, outcome: Result<(), IrError>) -> bool {
        if before.control@.len() == 0 || before.frame(0).kind != ControlKind::If {
            &&& outcome == Err::<(), IrError>(
                IrError::Wasm(WasmError::MissingControlFrame { relative_depth: 0 }),
            )
            &&& self.builder@ == before.builder@
            &&& self.stack@ == before.stack@
            &&& self.control@ == before.control@
            &&& self.reachable == before.reachable
        } else {
            let frame = before.frame(0);
            &&& self.control@ == before.control@.update(
                before.control@.len() - 1,
                ControlFrame { kind: ControlKind::Else, ..frame },
            )
            &&& if !frame.live {
                &&& outcome.is_ok()
                &&& self.builder@ == before.builder@
                &&& self.stack@ == before.stack@
                &&& self.reachable == before.reachable
            } else {
                exists|ended: FunctionModel, inner: Result<(), IrError>|
                    {
                        &&& #[trigger] Self::ended(
                            before.builder@,
                            before.stack@,
                            frame,
                            before.reachable,
                            ended,
                            inner,
                        )
                        &&& match inner {
                            Err(error) => outcome == Err::<(), IrError>(error) && self.builder@
                                == ended,
                            Ok(()) => {
                                &&& Self::resumed(
                                    ended,
                                    frame.alternative,
                                    self.builder@,
                                    outcome,
                                )
                                &&& self.stack@ == Self::cut(
                                    before.stack@,
                                    frame,
                                    before.reachable,
                                )
                                &&& self.reachable == outcome.is_ok()
                            },
                        }
                    }
            }
        }
    }

    /// Ends the first branch of an `if` and continues in the second.
    pub(crate) fn enter_else(&mut self) -> (outcome: Result<(), IrError>)
        requires
            old(self).wf(),
        ensures
            final(self).builder.wf(),
            final(self).done == old(self).done,
            outcome.is_ok() ==> final(self).wf() && final(self).control@.len() == old(self).control@.len(),
            final(self).turned(old(self), outcome),
    {
        let frame = match self.frame_at(0) {
            Ok(frame) => frame,
            Err(error) => {
                return Err(error);
            },
        };
        if frame.kind != ControlKind::If {
            return Err(IrError::Wasm(WasmError::MissingControlFrame { relative_depth: 0 }));
        }
        let last = self.control.len() - 1;
        let ghost before = self.control@;
        self.control[last] = ControlFrame { kind: ControlKind::Else, ..frame };
        proof {
            assert forall|i: int| 0 <= i < self.control@.len() implies self.frame_wf(
                #[trigger] self.control@[i],
            ) by {
                assert(old(self).frame_wf(before[i]));
            }
            assert(self.control@ =~= before.update(
                before.len() - 1,
                ControlFrame { kind: ControlKind::Else, ..frame },
            ));
        }
        if !frame.live {
            return Ok(());
        }
        let inner = if self.reachable {
            self.leave_to(frame, true)
        } else {
            self.close_dead_block()
        };
        let ghost ended = self.builder@;
        proof {
            assert(Self::ended(
                old(self).builder@,
                old(self).stack@,
                frame,
                old(self).reachable,
                ended,
                inner,
            ));
        }
        match inner {
            Ok(()) => {},
            Err(error) => {
                return Err(error);
            },
        }
        self.stack.truncate(frame.height);
        self.continue_in(frame.alternative)
    }

    /// Whether `after` and `outcome` come from `ended`, the function at
    /// the end of the first branch of an `if` without a second branch, by
    /// giving the `if` an empty second branch: the block of the second
    /// branch becomes the current block and ends in a branch to the end of
    /// the frame. For other frames there is nothing to do.
    pub open spec fn joined(
        ended: FunctionModel,
        frame: ControlFrame,
        after: FunctionModel,
        outcome: Result<(), IrError>,
    ) -> bool {
        if frame.kind == ControlKind::If {
            if ended.block(frame.alternative).filled {
                outcome == Err::<(), IrError>(
                    IrError::FunctionBuilder(
                        crate::error::FunctionBuilderError::BlockAlreadyFilled {
                            block: frame.alternative,
                        },
                    ),
                ) && after == ended
            } else {
                Self::branches(ended.with_current(frame.alternative), frame.end, after, outcome)
            }
        } else {
            outcome.is_ok() && after == ended
        }
    }

    /// Whether `after` and `value` come from `before` by reading the
    /// variable in the current block.
    pub open spec fn read(
        before: FunctionModel,
        var: Variable,
        after: FunctionModel,
        value: Result<Value, IrError>,
    ) -> bool {
        &&& value.is_err() ==> after == before
        &&& value matches Ok(read) ==> after.vars.definition(var, before.current) == Some(read)
        &&& after.extends(before)
        &&& if !before.vars.is_declared(var) {
            value == Err::<Value, IrError>(
                IrError::FunctionBuilder(
                    crate::error::FunctionBuilderError::MissingDeclarationForVariable {
                        variable: var,
                        access: crate::error::VariableAccess::Read,
                    },
                ),
            )
        } else if !before.vars.is_written(var) {
            value == Err::<Value, IrError>(
                IrError::FunctionBuilder(
                    crate::error::FunctionBuilderError::ReadBeforeWriteVariable { variable: var },
                ),
            )
        } else {
            after.reads(before, var, before.current, value)
        }
    }

    /// Whether `after` and `outcome` come from `before` at the end of the
    /// frame: the end of the body of the function returns the result, if
    /// there is one; the end of any other frame adds nothing.
    pub open spec fn returned(
        before: FunctionModel,
        frame: ControlFrame,
        result: Option<Value>,
        after: FunctionModel,
        outcome: Result<(), IrError>,
    ) -> bool {
        if frame.kind != ControlKind::Function {
            outcome.is_ok() && after == before
        } else if !Self::fits(before) {
            outcome == Err::<(), IrError>(IrError::Wasm(WasmError::FunctionTooLarge)) && after
                == before
        } else if before.block(before.current).filled {
            outcome == Err::<(), IrError>(
                IrError::FunctionBuilder(
                    crate::error::FunctionBuilderError::BlockAlreadyFilled {
                        block: before.current,
                    },
                ),
            ) && after == before
        } else {
            outcome.is_ok() && after.appends_terminal(
                before,
                crate::instruction::Instruction::Terminal(
                    crate::instruction::TerminalInstr::Return(
                        crate::instruction::ReturnInstr { return_value: result },
                    ),
                ),
                match result {
                    Some(value) => seq![value],
                    None => Seq::empty(),
                },
            )
        }
    }

    /// Whether `self` and `outcome` come from `at_end`, the function with
    /// the block behind the end of the frame as the current block, and
    /// from the stack at the end of the frame: a block that control
    /// cannot reach ends in a trap; else the result of the frame, if it
    /// has one, is read from its variable and pushed, and the body of the
    /// function returns.
    pub open spec fn arrived(
        &self,
        at_end: FunctionModel,
        stack: Seq<ValueEntry>,
        frame: ControlFrame,
        outcome: Result<(), IrError>,
    ) -> bool {
        if at_end.block(frame.end).preds.len() == 0 {
            &&& Self::closed(at_end, self.builder@, outcome)
            &&& self.stack@ == stack
            &&& !self.reachable
        } else {
            match frame.result {
                None => {
                    &&& Self::returned(at_end, frame, None, self.builder@, outcome)
                    &&& self.stack@ == stack
                    &&& self.reachable == (frame.kind != ControlKind::Function)
                },
                Some((var, ty)) => if !Self::fits(at_end) {
                    outcome == Err::<(), IrError>(IrError::Wasm(WasmError::FunctionTooLarge))
                        && self.builder@ == at_end
                } else {
                    exists|read: FunctionModel, value: Result<Value, IrError>|
                        {
                            &&& #[trigger] Self::read(at_end, var, read, value)
                            &&& match value {
                                Err(error) => outcome == Err::<(), IrError>(error) && self.builder@
                                    == read,
                                Ok(value) => {
                                    &&& Self::returned(
                                        read,
                                        frame,
                                        Some(value),
                                        self.builder@,
                                        outcome,
                                    )
                                    &&& self.stack@ == stack.push(ValueEntry { value, ty })
                                    &&& self.reachable == (frame.kind != ControlKind::Function)
                                },
                            }
                        }
                },
            }
        }
    }

    /// Whether `self` and `outcome` come from `joined`, the function in
    /// which all code of the frame has ended, by going on behind the end
    /// of the frame: the block there is sealed and becomes the current
    /// block, and the result of the frame arrives.
    pub open spec fn met(
        &self,
        joined: FunctionModel,
        stack: Seq<ValueEntry>,
        frame: ControlFrame,
        outcome: Result<(), IrError>,
    ) -> bool {
        exists|sealed: FunctionModel, inner: Result<(), IrError>|
            {
                &&& #[trigger] Self::sealed_at(joined, frame.end, sealed, inner)
                &&& match inner {
                    Err(error) => outcome == Err::<(), IrError>(error) && self.builder@ == sealed,
                    Ok(()) => if sealed.block(frame.end).filled {
                        outcome == Err::<(), IrError>(
                            IrError::FunctionBuilder(
                                crate::error::FunctionBuilderError::BlockAlreadyFilled {
                                    block: frame.end,
                                },
                            ),
                        ) && self.builder@ == sealed
                    } else {
                        self.arrived(sealed.with_current(frame.end), stack, frame, outcome)
                    },
                }
            }
    }

    /// Whether `self` and `outcome` come from `before` by closing the
    /// innermost frame. A frame that control cannot reach is only closed.
    /// The head of a loop is sealed. For any other frame the code in it is
    /// ended, an `if` without a second branch gets an empty one, and the
    /// translation goes on behind the end of the frame, with the stack
    /// cut to the height at which the frame was entered and the result of
    /// the frame on it.
    pub open spec fn left_frame(&self, before: &Self, outcome: Result<(), IrError>) -> bool {
        if before.control@.len() == 0 {
            &&& outcome == Err::<(), IrError>(
                IrError::Wasm(WasmError::MissingControlFrame { relative_depth: 0 }),
            )
            &&& self.builder@ == before.builder@
            &&& self.stack@ == before.stack@
            &&& self.control@ == before.control@
            &&& self.reachable == before.reachable
            &&& self.done == before.done
        } else {
            let frame = before.frame(0);
            &&& self.control@ == before.control@.drop_last()
            &&& self.done == (self.control@.len() == 0)
            &&& if !frame.live {
                &&& outcome.is_ok()
                &&& self.builder@ == before.builder@
                &&& self.stack@ == before.stack@
                &&& self.reachable == before.reachable
            } else if frame.kind == ControlKind::Loop {
                &&& Self::sealed_at(before.builder@, frame.target, self.builder@, outcome)
                &&& self.stack@ == before.stack@
                &&& self.reachable == before.reachable
            } else {
                exists|ended: FunctionModel, first: Result<(), IrError>|
                    {
                        &&& #[trigger] Self::ended(
                            before.builder@,
                            before.stack@,
                            frame,
                            before.reachable,
                            ended,
                            first,
                        )
                        &&& match first {
                            Err(error) => outcome == Err::<(), IrError>(error) && self.builder@
                                == ended,
                            Ok(()) => exists|joined: FunctionModel, second: Result<(), IrError>|
                                {
                                    &&& #[trigger] Self::joined(ended, frame, joined, second)
                                    &&& match second {
                                        Err(error) => outcome == Err::<(), IrError>(error)
                                            && self.builder@ == joined,
                                        Ok(()) => self.met(
                                            joined,
                                            Self::cut(before.stack@, frame, before.reachable),
                                            frame,
                                            outcome,
                                        ),
                                    }
                                },
                        }
                    }
            }
        }
    }

    /// Closes the innermost frame.
    pub(crate) fn leave_frame(&mut self) -> (outcome: Result<(), IrError>)
        requires
            old(self).wf(),
            !old(self).done,
        ensures
            final(self).builder.wf(),
            outcome.is_ok() ==> final(self).wf() && final(self).control@.len() + 1 == old(self).control@.len() && final(self).done == (final(self).control@.len() == 0),
            final(self).left_frame(old(self), outcome),
    {
        let frame = match self.frame_at(0) {
            Ok(frame) => frame,
            Err(error) => {
                return Err(error);
            },
        };
        let ghost before = self.control@;
        let _ = self.control.pop();
        proof {
            assert forall|i: int| 0 <= i < self.control@.len() implies self.frame_wf(
                #[trigger] self.control@[i],
            ) by {
                assert(old(self).frame_wf(before[i]));
            }
            assert(self.control@ =~= before.drop_last());
        }
        if self.control.len() == 0 {
            self.done = true;
        }
        if !frame.live {
            return Ok(());
        }
        if frame.kind == ControlKind::Loop {
            // All branches to the head of the loop are known now.
            return self.seal(frame.target);
        }
        let first = if self.reachable {
            self.leave_to(frame, true)
        } else {
            self.close_dead_block()
        };
        let ghost ended = self.builder@;
        let ghost stack = Self::cut(old(self).stack@, frame, old(self).reachable);
        proof {
            assert(Self::ended(
                old(self).builder@,
                old(self).stack@,
                frame,
                old(self).reachable,
                ended,
                first,
            ));
        }
        match first {
            Ok(()) => {},
            Err(error) => {
                return Err(error);
            },
        }
        let second = if frame.kind == ControlKind::If {
            // Without a second branch control passes on from the condition.
            match self.continue_in(frame.alternative) {
                Ok(()) => self.branch_to(frame.end),
                Err(error) => Err(error),
            }
        } else {
            Ok(())
        };
        let ghost joined = self.builder@;
        proof {
            assert(Self::joined(ended, frame, joined, second));
        }
        match second {
            Ok(()) => {},
            Err(error) => {
                return Err(error);
            },
        }
        let third = self.seal(frame.end);
        let ghost sealed = self.builder@;
        match third {
            Ok(()) => {},
            Err(error) => {
                proof {
                    assert(self.met(joined, stack, frame, Err(error)));
                }
                return Err(error);
            },
        }
        self.stack.truncate(frame.height);
        match self.continue_in(frame.end) {
            Ok(()) => {},
            Err(error) => {
                proof {
                    assert(self.met(joined, stack, frame, Err(error)));
                }
                return Err(error);
            },
        }
        let ghost at_end = self.builder@;
        let outcome = self.arrive(frame);
        proof {
            assert(self.arrived(at_end, stack, frame, outcome));
            assert(self.met(joined, stack, frame, outcome));
        }
        outcome
    }

    /// Goes on in the block behind the end of the frame, which is the
    /// current block: ends it with a trap if control cannot reach it; else
    /// reads the result of the frame and pushes it, and returns from the
    /// function at the end of its body.
    pub(crate) fn arrive(&mut self, frame: ControlFrame) -> (outcome: Result<(), IrError>)
        requires
            old(self).wf(),
            old(self).reachable,
            old(self).builder@.has_block(frame.end),
        ensures
            final(self).builder.wf(),
            outcome.is_ok() ==> final(self).wf(),
            final(self).control@ == old(self).control@,
            final(self).done == old(self).done,
            final(self).arrived(old(self).builder@, old(self).stack@, frame, outcome),
    {
        if self.builder.ctx.block(frame.end).preds.len() == 0 {
            // Control cannot reach the end of the frame.
            return self.close_dead_block();
        }
        let result = match frame.result {
            Some((var, ty)) => {
                match self.room() {
                    Ok(()) => {},
                    Err(error) => {
                        return Err(error);
                    },
                }
                let ghost before = self.builder@;
                let read = self.builder.read_var(var);
                proof {
                    assert(Self::read(before, var, self.builder@, read));
                }
                let value = match read {
                    Ok(value) => value,
                    Err(error) => {
                        return Err(error);
                    },
                };
                self.stack.push(value, ty);
                Some(value)
            },
            None => None,
        };
        if frame.kind == ControlKind::Function {
            self.reachable = false;
            match self.room() {
                Ok(()) => {},
                Err(error) => {
                    return Err(error);
                },
            }
            let ins = match self.builder.ins() {
                Ok(ins) => ins,
                Err(error) => {
                    return Err(error);
                },
            };
            let returned = match result {
                Some(value) => ins.return_value(value),
                None => ins.return_nothing(),
            };
            match returned {
                Ok(_) => {},
                Err(error) => {
                    return Err(error);
                },
            }
        }
        Ok(())
    }

    /// Ends the current basic block with a trap: what follows cannot be
    /// reached. Where the function has no room for the trap, nothing
    /// changes.
    pub(crate) fn unreachable(&mut self) -> (outcome: Result<(), IrError>)
        requires
            old(self).wf(),
            old(self).reachable,
        ensures
            final(self).same_frames(old(self)),
            final(self).stack == old(self).stack,
            final(self).wf(),
            final(self).reachable == outcome.is_err(),
            if old(self).has_room() {
                outcome.is_ok() && final(self).builder@.appends_terminal(
                    old(self).builder@,
                    crate::instruction::Instruction::Terminal(
                        crate::instruction::TerminalInstr::Trap,
                    ),
                    Seq::empty(),
                )
            } else {
                outcome == Err::<(), IrError>(IrError::Wasm(WasmError::FunctionTooLarge))
                    && final(self).builder@ == old(self).builder@
            },
    {
        match self.room() {
            Ok(()) => {},
            Err(error) => {
                return Err(error);
            },
        }
        self.close_dead_block()
    }

    /// Whether `self` and `outcome` come from `before` by returning from
    /// the function: by a branch to the outermost frame.
    pub open spec fn returned_from(&self, before: &Self, outcome: Result<(), IrError>) -> bool {
        &&& self.stack@ == before.stack@
        &&& if 0 < before.control@.len() <= u32::MAX {
            self.branched(before, (before.control@.len() - 1) as u32, outcome)
        } else {
            outcome == Err::<(), IrError>(
                IrError::Wasm(WasmError::MissingControlFrame { relative_depth: 0 }),
            ) && self.builder@ == before.builder@
        }
    }
}

} // verus!
