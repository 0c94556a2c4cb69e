//! How the translator handles the operators on values: constants, local
//! variables, arithmetic, comparison and selection.

use crate::builder::model::FunctionModel;
use crate::entity::index::Index32;
use crate::error::{IrError, WasmError};
use crate::instruction::{BinaryIntOp, CompareIntOp};
use crate::primitive::{Const, FloatConst, IntConst, IntType, Type, Value, Variable};
use crate::wasm::stack::{missing, ValueEntry};
use crate::wasm::translate::ValueNumbering;
use vstd::prelude::*;

verus! {

impl ValueNumbering {
    /// The error of a function that has no room for another operator.
    pub(crate) fn room(&self) -> (outcome: Result<(), IrError>)
        ensures
            outcome == if self.has_room() {
                Ok::<(), IrError>(())
            } else {
                Err::<(), IrError>(IrError::Wasm(WasmError::FunctionTooLarge))
            },
    {
        if self.check_room() {
            Ok(())
        } else {
            Err(IrError::Wasm(WasmError::FunctionTooLarge))
        }
    }

    /// Pops the top of the stack, which must be of the given type.
    pub(crate) fn pop_typed(&mut self, expected: Type) -> (outcome: Result<Value, IrError>)
        ensures
            final(self).builder == old(self).builder,
            final(self).control == old(self).control,
            final(self).len_locals == old(self).len_locals,
            final(self).next_result == old(self).next_result,
            final(self).reachable == old(self).reachable,
            final(self).done == old(self).done,
            match outcome {
                Ok(value) => {
                    &&& old(self).stack@.len() >= 1
                    &&& old(self).stack@.last() == (ValueEntry { value, ty: expected })
                    &&& final(self).stack@ == old(self).stack@.drop_last()
                },
                Err(error) => {
                    &&& final(self).stack@ == old(self).stack@
                    &&& if old(self).stack@.len() == 0 {
                        error == missing(1, old(self).stack@)
                    } else {
                        old(self).stack@.last().ty != expected && error == IrError::Wasm(
                            WasmError::UnmatchingOperandType {
                                value: old(self).stack@.last().value,
                                expected,
                                actual: old(self).stack@.last().ty,
                            },
                        )
                    }
                },
            },
    {
        let top = match self.stack.peek1() {
            Ok(top) => top,
            Err(error) => {
                return Err(error);
            },
        };
        if top.ty != expected {
            return Err(
                IrError::Wasm(
                    WasmError::UnmatchingOperandType { value: top.value, expected, actual: top.ty },
                ),
            );
        }
        let _ = self.stack.pop1();
        Ok(top.value)
    }

    /// Returns the top of the stack, which must be of the given type.
    pub(crate) fn peek_typed(&self, expected: Type) -> (outcome: Result<Value, IrError>)
        ensures
            match outcome {
                Ok(value) => self.stack@.len() >= 1 && self.stack@.last() == (ValueEntry {
                    value,
                    ty: expected,
                }),
                Err(error) => if self.stack@.len() == 0 {
                    error == missing(1, self.stack@)
                } else {
                    self.stack@.last().ty != expected && error == IrError::Wasm(
                        WasmError::UnmatchingOperandType {
                            value: self.stack@.last().value,
                            expected,
                            actual: self.stack@.last().ty,
                        },
                    )
                },
            },
    {
        let top = match self.stack.peek1() {
            Ok(top) => top,
            Err(error) => {
                return Err(error);
            },
        };
        if top.ty != expected {
            return Err(
                IrError::Wasm(
                    WasmError::UnmatchingOperandType { value: top.value, expected, actual: top.ty },
                ),
            );
        }
        Ok(top.value)
    }

    /// Appends an instruction that produces the integer constant and pushes
    /// its value.
    pub(crate) fn push_int_const(&mut self, constant: IntConst) -> (outcome: Result<Value, IrError>)
        requires
            old(self).wf(),
            old(self).reachable,
        ensures
            final(self).wf(),
            final(self).same_frames(old(self)),
            final(self).reachable,
            match outcome {
                Ok(value) => {
                    &&& old(self).has_room()
                    &&& value == old(self).builder@.next_value()
                    &&& final(self).builder@ == old(self).builder@.appended_value(
                        crate::instruction::Instruction::Const(
                            crate::instruction::ConstInstr { const_value: Const::Int(constant) },
                        ),
                        Type::Int(constant.int_type()),
                        Seq::empty(),
                    )
                    &&& final(self).stack@ == old(self).stack@.push(
                        ValueEntry { value, ty: Type::Int(constant.int_type()) },
                    )
                },
                Err(error) => {
                    &&& !old(self).has_room()
                    &&& error == IrError::Wasm(WasmError::FunctionTooLarge)
                    &&& final(self).builder@ == old(self).builder@
                    &&& final(self).stack@ == old(self).stack@
                },
            },
    {
        match self.room() {
            Ok(()) => {},
            Err(error) => {
                return Err(error);
            },
        }
        let ins = match self.builder.ins() {
            Ok(ins) => ins,
            Err(error) => {
                return Err(error);
            },
        };
        let value = match ins.constant(constant) {
            Ok(value) => value,
            Err(error) => {
                return Err(error);
            },
        };
        self.stack.push(value, constant.ty());
        Ok(value)
    }

    /// Appends an instruction that produces the floating point number
    /// constant and pushes its value.
    pub(crate) fn push_float_const(&mut self, constant: FloatConst) -> (outcome: Result<Value, IrError>)
        requires
            old(self).wf(),
            old(self).reachable,
        ensures
            final(self).wf(),
            final(self).same_frames(old(self)),
            final(self).reachable,
            match outcome {
                Ok(value) => {
                    &&& old(self).has_room()
                    &&& value == old(self).builder@.next_value()
                    &&& final(self).builder@ == old(self).builder@.appended_value(
                        crate::instruction::Instruction::Const(
                            crate::instruction::ConstInstr { const_value: Const::Float(constant) },
                        ),
                        Type::Float(constant.float_type()),
                        Seq::empty(),
                    )
                    &&& final(self).stack@ == old(self).stack@.push(
                        ValueEntry { value, ty: Type::Float(constant.float_type()) },
                    )
                },
                Err(error) => {
                    &&& !old(self).has_room()
                    &&& error == IrError::Wasm(WasmError::FunctionTooLarge)
                    &&& final(self).builder@ == old(self).builder@
                    &&& final(self).stack@ == old(self).stack@
                },
            },
    {
        match self.room() {
            Ok(()) => {},
            Err(error) => {
                return Err(error);
            },
        }
        let ins = match self.builder.ins() {
            Ok(ins) => ins,
            Err(error) => {
                return Err(error);
            },
        };
        let value = match ins.constant(constant) {
            Ok(value) => value,
            Err(error) => {
                return Err(error);
            },
        };
        self.stack.push(value, constant.ty());
        Ok(value)
    }

    /// The error of an operand that is not of the expected type, if it is not.
    pub open spec fn operand_error(entry: ValueEntry, expected: Type) -> Option<IrError> {
        if entry.ty != expected {
            Some(
                IrError::Wasm(
                    WasmError::UnmatchingOperandType {
                        value: entry.value,
                        expected,
                        actual: entry.ty,
                    },
                ),
            )
        } else {
            None
        }
    }

    /// The error that a binary operator on integers of the type ends in, if
    /// any: the stack holds fewer than two entries, the right-hand side or
    /// the left-hand side is not of the type, or the function has no room.
    pub open spec fn binary_error(&self, ty: IntType) -> Option<IrError> {
        let stack = self.stack@;
        if stack.len() < 2 {
            Some(missing(2, stack))
        } else if stack[stack.len() - 1].ty != Type::Int(ty) {
            Self::operand_error(stack[stack.len() - 1], Type::Int(ty))
        } else if stack[stack.len() - 2].ty != Type::Int(ty) {
            Self::operand_error(stack[stack.len() - 2], Type::Int(ty))
        } else if !self.room_for(4) {
            Some(IrError::Wasm(WasmError::FunctionTooLarge))
        } else {
            None
        }
    }

    /// The error that a selection ends in, if any: the stack holds fewer
    /// than three entries, the condition is no integer of 32 bits, the two
    /// values are not of one type, or the function has no room.
    pub open spec fn select_error(&self) -> Option<IrError> {
        let stack = self.stack@;
        if stack.len() < 3 {
            Some(missing(3, stack))
        } else if stack[stack.len() - 1].ty != Type::Int(IntType::I32) {
            Self::operand_error(stack[stack.len() - 1], Type::Int(IntType::I32))
        } else if stack[stack.len() - 2].ty != stack[stack.len() - 3].ty {
            Self::operand_error(stack[stack.len() - 2], stack[stack.len() - 3].ty)
        } else if !self.room_for(4) {
            Some(IrError::Wasm(WasmError::FunctionTooLarge))
        } else {
            None
        }
    }

    /// The function with a comparison of two integers of the type at the end
    /// of the current block.
    pub open spec fn with_compare(
        model: FunctionModel,
        ty: IntType,
        op: CompareIntOp,
        lhs: Value,
        rhs: Value,
    ) -> FunctionModel {
        model.appended_value(
            crate::instruction::Instruction::Int(
                crate::instruction::IntInstr::Compare(
                    crate::instruction::CompareIntInstr { op, int_type: ty, lhs, rhs },
                ),
            ),
            Type::Bool,
            seq![lhs, rhs],
        )
    }

    /// The function with an integer constant at the end of the current block.
    pub open spec fn with_int_const(model: FunctionModel, constant: IntConst) -> FunctionModel {
        model.appended_value(
            crate::instruction::Instruction::Const(
                crate::instruction::ConstInstr { const_value: Const::Int(constant) },
            ),
            Type::Int(constant.int_type()),
            Seq::empty(),
        )
    }

    /// The function with a selection between two values of the type at the
    /// end of the current block.
    pub open spec fn with_select(
        model: FunctionModel,
        condition: Value,
        ty: Type,
        value_true: Value,
        value_false: Value,
    ) -> FunctionModel {
        model.appended_value(
            crate::instruction::Instruction::Select(
                crate::instruction::SelectInstr {
                    condition,
                    value_type: ty,
                    value_true,
                    value_false,
                },
            ),
            ty,
            seq![condition, value_true, value_false],
        )
    }

    /// The function with the instructions that turn a flag into an integer
    /// of 32 bits at the end of the current block: the constants one and
    /// zero and the selection between them.
    pub open spec fn with_flag_to_int(model: FunctionModel, flag: Value) -> FunctionModel {
        let one = Self::with_int_const(model, IntConst::I32(1));
        let zero = Self::with_int_const(one, IntConst::I32(0));
        Self::with_select(
            zero,
            flag,
            Type::Int(IntType::I32),
            model.next_value(),
            one.next_value(),
        )
    }

    /// The value of the integer of 32 bits that a flag is turned into.
    pub open spec fn flag_to_int_value(model: FunctionModel) -> Value {
        Self::with_int_const(
            Self::with_int_const(model, IntConst::I32(1)),
            IntConst::I32(0),
        ).next_value()
    }

    /// The value of the flag that an integer of 32 bits is turned into.
    pub open spec fn int_to_flag_value(model: FunctionModel) -> Value {
        Self::with_int_const(model, IntConst::I32(0)).next_value()
    }

    /// The function with the instructions that turn an integer of 32 bits
    /// into a flag at the end of the current block: the constant zero and
    /// the comparison with it.
    pub open spec fn with_int_to_flag(model: FunctionModel, condition: Value) -> FunctionModel {
        let zero = Self::with_int_const(model, IntConst::I32(0));
        Self::with_compare(zero, IntType::I32, CompareIntOp::Ne, condition, model.next_value())
    }

    /// Pops two integers of the type, appends the binary integer operation
    /// on them and pushes its value.
    pub(crate) fn push_binary_int(&mut self, ty: IntType, op: BinaryIntOp) -> (outcome: Result<(), IrError>)
        requires
            old(self).wf(),
            old(self).reachable,
        ensures
            final(self).wf(),
            final(self).same_frames(old(self)),
            final(self).reachable,
            final(self).computed(old(self), ty, op, outcome),
    {
        let (lhs, rhs) = match self.pop_operands(ty) {
            Ok(operands) => operands,
            Err(error) => {
                return Err(error);
            },
        };
        let ghost before = old(self).stack@;
        let ins = match self.builder.ins() {
            Ok(ins) => ins,
            Err(error) => {
                return Err(error);
            },
        };
        let value = match ins.binary_int(op, ty, lhs, rhs) {
            Ok(value) => value,
            Err(error) => {
                return Err(error);
            },
        };
        self.stack.push(value, Type::Int(ty));
        Ok(())
    }

    /// Pops two integers of the type from the stack, if they are there and
    /// the function has room for an operation on them.
    pub(crate) fn pop_operands(&mut self, ty: IntType) -> (outcome: Result<(Value, Value), IrError>)
        requires
            old(self).wf(),
        ensures
            final(self).builder == old(self).builder,
            final(self).control == old(self).control,
            final(self).len_locals == old(self).len_locals,
            final(self).next_result == old(self).next_result,
            final(self).reachable == old(self).reachable,
            final(self).done == old(self).done,
            match outcome {
                Ok((lhs, rhs)) => {
                    let stack = old(self).stack@;
                    &&& old(self).binary_error(ty).is_none()
                    &&& lhs == stack[stack.len() - 2].value
                    &&& rhs == stack[stack.len() - 1].value
                    &&& final(self).stack@ == stack.take(stack.len() - 2)
                },
                Err(error) => old(self).binary_error(ty) == Some(error) && final(self).stack@
                    == old(self).stack@,
            },
    {
        let (lhs, rhs) = match self.stack.pop2() {
            Ok(operands) => operands,
            Err(error) => {
                return Err(error);
            },
        };
        let expected = Type::Int(ty);
        let error = if rhs.ty != expected {
            Some(
                IrError::Wasm(
                    WasmError::UnmatchingOperandType {
                        value: rhs.value,
                        expected,
                        actual: rhs.ty,
                    },
                ),
            )
        } else if lhs.ty != expected {
            Some(
                IrError::Wasm(
                    WasmError::UnmatchingOperandType {
                        value: lhs.value,
                        expected,
                        actual: lhs.ty,
                    },
                ),
            )
        } else if !self.check_room_for(4) {
            Some(IrError::Wasm(WasmError::FunctionTooLarge))
        } else {
            None
        };
        match error {
            Some(error) => {
                // The operands return to the stack.
                self.stack.push(lhs.value, lhs.ty);
                self.stack.push(rhs.value, rhs.ty);
                assert(self.stack@ =~= old(self).stack@);
                Err(error)
            },
            None => Ok((lhs.value, rhs.value)),
        }
    }

    /// Pops two integers of the type, appends their comparison and pushes
    /// its value as an integer of 32 bits: one if the comparison holds,
    /// zero if not.
    pub(crate) fn push_compare_int(&mut self, ty: IntType, op: CompareIntOp) -> (outcome: Result<(), IrError>)
        requires
            old(self).wf(),
            old(self).reachable,
        ensures
            final(self).wf(),
            final(self).same_frames(old(self)),
            final(self).reachable,
            final(self).compared(old(self), ty, op, outcome),
    {
        let (lhs, rhs) = match self.pop_operands(ty) {
            Ok(operands) => operands,
            Err(error) => {
                return Err(error);
            },
        };
        let flag = self.emit_compare(ty, op, lhs, rhs);
        // The comparison is a `Bool`; on the stack it is an integer.
        let value = self.emit_flag_to_int(flag);
        self.stack.push(value, Type::Int(IntType::I32));
        Ok(())
    }

    /// Whether the function has room for one instruction and one value more.
    pub open spec fn can_append(model: FunctionModel) -> bool {
        model.instrs.len() + 1 < u32::MAX && model.value_type.len() + 1 < u32::MAX
    }

    /// Appends the comparison of two values.
    pub(crate) fn emit_compare(&mut self, ty: IntType, op: CompareIntOp, lhs: Value, rhs: Value) -> (value:
        Value)
        requires
            old(self).wf(),
            old(self).builder@.has_value(lhs),
            old(self).builder@.has_value(rhs),
            old(self).reachable,
            Self::can_append(old(self).builder@),
        ensures
            final(self).builder@.has_value(value),
            final(self).wf(),
            final(self).same_frames(old(self)),
            final(self).reachable,
            final(self).stack == old(self).stack,
            value == old(self).builder@.next_value(),
            final(self).builder@ == Self::with_compare(old(self).builder@, ty, op, lhs, rhs),
    {
        let ins = match self.builder.ins() {
            Ok(ins) => ins,
            Err(_) => vstd::pervasive::unreached(),
        };
        match ins.icmp(ty, op, lhs, rhs) {
            Ok(value) => value,
            Err(_) => vstd::pervasive::unreached(),
        }
    }

    /// Appends an instruction that produces the integer constant.
    pub(crate) fn emit_int_const(&mut self, constant: IntConst) -> (value: Value)
        requires
            old(self).wf(),
            old(self).reachable,
            Self::can_append(old(self).builder@),
        ensures
            final(self).builder@.has_value(value),
            final(self).wf(),
            final(self).same_frames(old(self)),
            final(self).reachable,
            final(self).stack == old(self).stack,
            value == old(self).builder@.next_value(),
            final(self).builder@ == Self::with_int_const(old(self).builder@, constant),
    {
        let ins = match self.builder.ins() {
            Ok(ins) => ins,
            Err(_) => vstd::pervasive::unreached(),
        };
        match ins.constant(constant) {
            Ok(value) => value,
            Err(_) => vstd::pervasive::unreached(),
        }
    }

    /// Appends a selection between two values of the type by the flag.
    pub(crate) fn emit_select(&mut self, flag: Value, ty: Type, value_true: Value, value_false: Value) -> (value:
        Value)
        requires
            old(self).wf(),
            old(self).builder@.has_value(flag),
            old(self).builder@.has_value(value_true),
            old(self).builder@.has_value(value_false),
            old(self).reachable,
            Self::can_append(old(self).builder@),
        ensures
            final(self).builder@.has_value(value),
            final(self).wf(),
            final(self).same_frames(old(self)),
            final(self).reachable,
            final(self).stack == old(self).stack,
            value == old(self).builder@.next_value(),
            final(self).builder@ == Self::with_select(
                old(self).builder@,
                flag,
                ty,
                value_true,
                value_false,
            ),
    {
        let ins = match self.builder.ins() {
            Ok(ins) => ins,
            Err(_) => vstd::pervasive::unreached(),
        };
        match ins.select(flag, ty, value_true, value_false) {
            Ok(value) => value,
            Err(_) => vstd::pervasive::unreached(),
        }
    }

    /// Appends the selection of one or zero, as integers of 32 bits, by the flag.
    pub(crate) fn emit_flag_to_int(&mut self, flag: Value) -> (value: Value)
        requires
            old(self).wf(),
            old(self).builder@.has_value(flag),
            old(self).reachable,
            old(self).builder@.instrs.len() + 3 < u32::MAX,
            old(self).builder@.value_type.len() + 3 < u32::MAX,
        ensures
            final(self).builder@.has_value(value),
            final(self).wf(),
            final(self).same_frames(old(self)),
            final(self).reachable,
            final(self).stack == old(self).stack,
            final(self).builder@ == Self::with_flag_to_int(old(self).builder@, flag),
            value == Self::flag_to_int_value(old(self).builder@),
            final(self).builder@.instrs.len() == old(self).builder@.instrs.len() + 3,
            final(self).builder@.value_type.len() == old(self).builder@.value_type.len() + 3,
            final(self).builder@.blocks.len() == old(self).builder@.blocks.len(),
            final(self).builder@.current == old(self).builder@.current,
    {
        let one = self.emit_int_const(IntConst::I32(1));
        let zero = self.emit_int_const(IntConst::I32(0));
        self.emit_select(flag, Type::Int(IntType::I32), one, zero)
    }

    /// Appends the comparison of an integer of 32 bits with zero: the flag
    /// that the integer is not zero.
    pub(crate) fn emit_int_to_flag(&mut self, condition: Value) -> (flag: Value)
        requires
            old(self).wf(),
            old(self).builder@.has_value(condition),
            old(self).reachable,
            old(self).builder@.instrs.len() + 2 < u32::MAX,
            old(self).builder@.value_type.len() + 2 < u32::MAX,
        ensures
            final(self).builder@.has_value(flag),
            final(self).wf(),
            final(self).same_frames(old(self)),
            final(self).reachable,
            final(self).stack == old(self).stack,
            final(self).builder@ == Self::with_int_to_flag(old(self).builder@, condition),
            flag == Self::int_to_flag_value(old(self).builder@),
            final(self).builder@.instrs.len() == old(self).builder@.instrs.len() + 2,
            final(self).builder@.value_type.len() == old(self).builder@.value_type.len() + 2,
            final(self).builder@.blocks.len() == old(self).builder@.blocks.len(),
            final(self).builder@.current == old(self).builder@.current,
    {
        let zero = self.emit_int_const(IntConst::I32(0));
        self.emit_compare(IntType::I32, CompareIntOp::Ne, condition, zero)
    }

    /// Returns the variable and the type of the local variable with the index.
    pub(crate) fn local(&self, local_index: u32) -> (outcome: Result<(Variable, Type), IrError>)
        requires
            self.wf(),
        ensures
            match outcome {
                Ok((var, ty)) => {
                    &&& local_index < self.len_locals
                    &&& var.index() == local_index
                    &&& self.builder@.vars.is_declared(var)
                    &&& ty == self.builder@.vars.declared_type(var)
                },
                Err(error) => {
                    &&& error == IrError::Wasm(WasmError::MissingLocalVariable { local_index })
                    &&& local_index >= self.len_locals || forall|var: Variable|
                        var.index() == local_index ==> !self.builder@.vars.is_declared(var)
                },
            },
    {
        if local_index >= self.len_locals {
            return Err(IrError::Wasm(WasmError::MissingLocalVariable { local_index }));
        }
        let var = Variable::from_u32(local_index);
        match self.builder.ctx.vars.declared_type(var) {
            Some(ty) => Ok((var, ty)),
            None => Err(IrError::Wasm(WasmError::MissingLocalVariable { local_index })),
        }
    }

    /// The error that reading or writing the local variable ends in, if
    /// any, before the builder is asked: the function has no such variable.
    pub open spec fn local_error(&self, local_index: u32) -> Option<IrError> {
        if local_index >= self.len_locals || !self.builder@.vars.is_declared(
            Variable::at(local_index),
        ) {
            Some(IrError::Wasm(WasmError::MissingLocalVariable { local_index }))
        } else {
            None
        }
    }

    /// Pushes the value that the local variable reads as.
    pub(crate) fn local_get(&mut self, local_index: u32) -> (outcome: Result<(), IrError>)
        requires
            old(self).wf(),
            old(self).reachable,
        ensures
            final(self).wf(),
            final(self).same_frames(old(self)),
            final(self).reachable,
            final(self).builder@.extends(old(self).builder@),
            final(self).got(old(self), local_index, outcome),
    {
        proof {
            self.builder@.lemma_extends_refl();
            Variable::lemma_at(local_index);
        }
        let (var, ty) = match self.local(local_index) {
            Ok(local) => local,
            Err(error) => {
                proof {
                    if local_index < self.len_locals {
                        Variable::lemma_same_index(
                            Variable::at(local_index),
                            Variable::at(local_index),
                        );
                    }
                }
                return Err(error);
            },
        };
        proof {
            Variable::lemma_same_index(var, Variable::at(local_index));
        }
        match self.room() {
            Ok(()) => {},
            Err(error) => {
                return Err(error);
            },
        }
        let value = match self.builder.read_var(var) {
            Ok(value) => value,
            Err(error) => {
                return Err(error);
            },
        };
        self.stack.push(value, ty);
        Ok(())
    }

    /// The error that writing the top of the stack to the local variable
    /// ends in, if any: the function has no such variable, the stack is
    /// empty, or its top is not of the type of the variable.
    pub open spec fn set_error(&self, local_index: u32) -> Option<IrError> {
        let declared = self.builder@.vars.declared_type(Variable::at(local_index));
        if self.local_error(local_index).is_some() {
            self.local_error(local_index)
        } else if self.stack@.len() == 0 {
            Some(missing(1, self.stack@))
        } else {
            Self::operand_error(self.stack@.last(), declared)
        }
    }

    /// Writes the top of the stack to the local variable, and pops it if asked to.
    pub(crate) fn local_set(&mut self, local_index: u32, pop: bool) -> (outcome: Result<(), IrError>)
        requires
            old(self).wf(),
            old(self).reachable,
        ensures
            final(self).wf(),
            final(self).same_frames(old(self)),
            final(self).reachable,
            final(self).wrote(old(self), local_index, pop, outcome),
    {
        proof {
            Variable::lemma_at(local_index);
        }
        let (var, ty) = match self.local(local_index) {
            Ok(local) => local,
            Err(error) => {
                return Err(error);
            },
        };
        proof {
            Variable::lemma_same_index(var, Variable::at(local_index));
        }
        let value = match self.peek_typed(ty) {
            Ok(value) => value,
            Err(error) => {
                return Err(error);
            },
        };
        proof {
            Variable::lemma_at(local_index);
            Variable::lemma_same_index(var, Variable::at(local_index));
        }
        let block = self.builder.current_block();
        self.builder.define(var, block, value);
        if pop {
            let _ = self.stack.pop1();
        }
        Ok(())
    }

    /// Pops the condition and two values of one type, appends the
    /// selection between them and pushes its value: the first value if the
    /// condition is not zero, the second if it is.
    pub(crate) fn select(&mut self) -> (outcome: Result<(), IrError>)
        requires
            old(self).wf(),
            old(self).reachable,
        ensures
            final(self).wf(),
            final(self).same_frames(old(self)),
            final(self).reachable,
            final(self).selected(old(self), outcome),
    {
        let (first, second, condition) = match self.stack.pop3() {
            Ok(entries) => entries,
            Err(error) => {
                return Err(error);
            },
        };
        let error = if condition.ty != Type::Int(IntType::I32) {
            Some(
                IrError::Wasm(
                    WasmError::UnmatchingOperandType {
                        value: condition.value,
                        expected: Type::Int(IntType::I32),
                        actual: condition.ty,
                    },
                ),
            )
        } else if second.ty != first.ty {
            Some(
                IrError::Wasm(
                    WasmError::UnmatchingOperandType {
                        value: second.value,
                        expected: first.ty,
                        actual: second.ty,
                    },
                ),
            )
        } else if !self.check_room_for(4) {
            Some(IrError::Wasm(WasmError::FunctionTooLarge))
        } else {
            None
        };
        match error {
            Some(error) => {
                // The operands return to the stack.
                self.stack.push(first.value, first.ty);
                self.stack.push(second.value, second.ty);
                self.stack.push(condition.value, condition.ty);
                assert(self.stack@ =~= old(self).stack@);
                Err(error)
            },
            None => {
                let flag = self.emit_int_to_flag(condition.value);
                let value = self.emit_select(flag, first.ty, first.value, second.value);
                self.stack.push(value, first.ty);
                Ok(())
            },
        }
    }

    /// Whether `self` and `outcome` come from `before` by pushing the
    /// integer constant: its instruction is appended to the current block
    /// and its value is pushed, if the function has room for it.
    pub open spec fn pushed_int_const(
        &self,
        before: &Self,
        constant: IntConst,
        outcome: Result<(), IrError>,
    ) -> bool {
        if before.has_room() {
            &&& outcome.is_ok()
            &&& self.stack@ == before.stack@.push(
                ValueEntry {
                    value: before.builder@.next_value(),
                    ty: Type::Int(constant.int_type()),
                },
            )
            &&& self.builder@ == Self::with_int_const(before.builder@, constant)
        } else {
            &&& outcome == Err::<(), IrError>(IrError::Wasm(WasmError::FunctionTooLarge))
            &&& self.stack@ == before.stack@
            &&& self.builder@ == before.builder@
        }
    }

    /// Whether `self` and `outcome` come from `before` by pushing the
    /// floating point constant: its instruction is appended to the current
    /// block and its value is pushed, if the function has room for it.
    pub open spec fn pushed_float_const(
        &self,
        before: &Self,
        constant: FloatConst,
        outcome: Result<(), IrError>,
    ) -> bool {
        if before.has_room() {
            &&& outcome.is_ok()
            &&& self.stack@ == before.stack@.push(
                ValueEntry {
                    value: before.builder@.next_value(),
                    ty: Type::Float(constant.float_type()),
                },
            )
            &&& self.builder@ == before.builder@.appended_value(
                crate::instruction::Instruction::Const(
                    crate::instruction::ConstInstr { const_value: Const::Float(constant) },
                ),
                Type::Float(constant.float_type()),
                Seq::empty(),
            )
        } else {
            &&& outcome == Err::<(), IrError>(IrError::Wasm(WasmError::FunctionTooLarge))
            &&& self.stack@ == before.stack@
            &&& self.builder@ == before.builder@
        }
    }

    /// Whether `self` and `outcome` come from `before` by dropping the top
    /// of the stack.
    pub open spec fn dropped(&self, before: &Self, outcome: Result<(), IrError>) -> bool {
        &&& self.builder@ == before.builder@
        &&& if before.stack@.len() == 0 {
            outcome == Err::<(), IrError>(missing(1, before.stack@)) && self.stack@
                == before.stack@
        } else {
            outcome.is_ok() && self.stack@ == before.stack@.drop_last()
        }
    }

    /// Whether `self` and `outcome` come from `before` by ending the
    /// current block with a trap.
    pub open spec fn trapped(&self, before: &Self, outcome: Result<(), IrError>) -> bool {
        &&& self.stack@ == before.stack@
        &&& self.reachable == outcome.is_err()
        &&& Self::closed(before.builder@, self.builder@, outcome)
    }

    /// Whether `self` and `outcome` come from `before` by writing the top
    /// of the stack to the local variable, and by popping it if `pop` is
    /// set.
    pub open spec fn wrote(&self, before: &Self, local_index: u32, pop: bool, outcome: Result<
        (),
        IrError,
    >) -> bool {
        match outcome {
            Ok(()) => {
                &&& before.set_error(local_index).is_none()
                &&& self.stack@ == if pop {
                    before.stack@.drop_last()
                } else {
                    before.stack@
                }
                &&& self.builder@ == before.builder@.with_def(
                    Variable::at(local_index),
                    before.builder@.current,
                    before.stack@.last().value,
                )
            },
            Err(error) => {
                &&& before.set_error(local_index) == Some(error)
                &&& self.stack@ == before.stack@
                &&& self.builder@ == before.builder@
            },
        }
    }

    /// Whether `self` and `outcome` come from `before` by reading the
    /// local variable in the current block and pushing the value.
    pub open spec fn got(&self, before: &Self, local_index: u32, outcome: Result<
        (),
        IrError,
    >) -> bool {
        let var = Variable::at(local_index);
        match before.local_error(local_index) {
            Some(error) => {
                &&& outcome == Err::<(), IrError>(error)
                &&& self.builder@ == before.builder@
                &&& self.stack@ == before.stack@
            },
            None => if !before.has_room() {
                &&& outcome == Err::<(), IrError>(IrError::Wasm(WasmError::FunctionTooLarge))
                &&& self.builder@ == before.builder@
                &&& self.stack@ == before.stack@
            } else {
                match outcome {
                    Ok(()) => {
                        &&& self.stack@ == before.stack@.push(
                            ValueEntry {
                                value: self.stack@.last().value,
                                ty: before.builder@.vars.declared_type(var),
                            },
                        )
                        &&& Self::read(
                            before.builder@,
                            var,
                            self.builder@,
                            Ok(self.stack@.last().value),
                        )
                    },
                    Err(error) => {
                        &&& self.stack@ == before.stack@
                        &&& Self::read(before.builder@, var, self.builder@, Err(error))
                    },
                }
            },
        }
    }

    /// Whether `self` and `outcome` come from `before` by a binary
    /// operation on integers of the type: two operands are popped, the
    /// instruction on them is appended and its value is pushed.
    pub open spec fn computed(
        &self,
        before: &Self,
        ty: IntType,
        op: BinaryIntOp,
        outcome: Result<(), IrError>,
    ) -> bool {
        match outcome {
            Ok(()) => {
                let stack = before.stack@;
                let lhs = stack[stack.len() - 2];
                let rhs = stack[stack.len() - 1];
                &&& before.binary_error(ty).is_none()
                &&& self.builder@ == before.builder@.appended_value(
                    crate::instruction::Instruction::Int(
                        crate::instruction::IntInstr::Binary(
                            crate::instruction::BinaryIntInstr {
                                op,
                                ty,
                                lhs: lhs.value,
                                rhs: rhs.value,
                            },
                        ),
                    ),
                    Type::Int(ty),
                    seq![lhs.value, rhs.value],
                )
                &&& self.stack@ == stack.take(stack.len() - 2).push(
                    ValueEntry {
                        value: before.builder@.next_value(),
                        ty: Type::Int(ty),
                    },
                )
            },
            Err(error) => {
                &&& before.binary_error(ty) == Some(error)
                &&& self.builder@ == before.builder@
                &&& self.stack@ == before.stack@
            },
        }
    }

    /// Whether `self` and `outcome` come from `before` by a comparison of
    /// integers of the type: two operands are popped, the comparison and
    /// the conversion of its flag to an integer of 32 bits are appended,
    /// and that integer is pushed.
    pub open spec fn compared(
        &self,
        before: &Self,
        ty: IntType,
        op: CompareIntOp,
        outcome: Result<(), IrError>,
    ) -> bool {
        match outcome {
            Ok(()) => {
                let stack = before.stack@;
                let compared = Self::with_compare(
                    before.builder@,
                    ty,
                    op,
                    stack[stack.len() - 2].value,
                    stack[stack.len() - 1].value,
                );
                &&& before.binary_error(ty).is_none()
                &&& self.builder@ == Self::with_flag_to_int(
                    compared,
                    before.builder@.next_value(),
                )
                &&& self.stack@ == stack.take(stack.len() - 2).push(
                    ValueEntry {
                        value: Self::flag_to_int_value(compared),
                        ty: Type::Int(IntType::I32),
                    },
                )
            },
            Err(error) => {
                &&& before.binary_error(ty) == Some(error)
                &&& self.builder@ == before.builder@
                &&& self.stack@ == before.stack@
            },
        }
    }

    /// Whether `self` and `outcome` come from `before` by a selection: the
    /// condition and two values of one type are popped, the selection of
    /// the first value if the condition is not zero, of the second if it
    /// is, is appended and its value is pushed.
    pub open spec fn selected(&self, before: &Self, outcome: Result<(), IrError>) -> bool {
        match outcome {
            Ok(()) => {
                let stack = before.stack@;
                let first = stack[stack.len() - 3];
                let second = stack[stack.len() - 2];
                let condition = stack[stack.len() - 1];
                let flagged = Self::with_int_to_flag(
                    before.builder@,
                    condition.value,
                );
                &&& before.select_error().is_none()
                &&& self.builder@ == Self::with_select(
                    flagged,
                    Self::int_to_flag_value(before.builder@),
                    first.ty,
                    first.value,
                    second.value,
                )
                &&& self.stack@ == stack.take(stack.len() - 3).push(
                    ValueEntry { value: flagged.next_value(), ty: first.ty },
                )
            },
            Err(error) => {
                &&& before.select_error() == Some(error)
                &&& self.builder@ == before.builder@
                &&& self.stack@ == before.stack@
            },
        }
    }
}

} // verus!
