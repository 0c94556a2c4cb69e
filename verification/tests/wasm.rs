use runwell::builder::ValueAssoc;
use runwell::entity::{Index32, RawIdx};
use runwell::error::{IrError, WasmError};
use runwell::instruction::{BinaryIntOp, Instruction, IntInstr, TerminalInstr};
use runwell::primitive::{Block, Const, IntConst, IntType, Type, Value};
use runwell::wasm::{translate_wasm, BlockType, Operator, ValueNumbering, WasmType};

fn bb(index: u32) -> Block {
    Block::from_raw(RawIdx::from_u32(index))
}

#[test]
fn translates_addition_of_constants() {
    let body = vec![
        Operator::I32Const { value: 1 },
        Operator::I32Const { value: 2 },
        Operator::I32Add,
        Operator::End,
    ];
    let fun = translate_wasm(&[], &[WasmType::I32], &[], body).unwrap();
    // The entry block and the block behind the end of the body.
    assert_eq!(fun.len_blocks(), 2);
    let instrs = fun.block_instrs(bb(0));
    assert_eq!(instrs.len(), 4);
    match fun.instr(instrs[2]) {
        Instruction::Int(IntInstr::Binary(instr)) => {
            assert_eq!(instr.op(), BinaryIntOp::Add);
            assert_eq!(instr.ty(), IntType::I32);
            assert_eq!(fun.instr_value(instrs[0]), Some(instr.lhs()));
            assert_eq!(fun.instr_value(instrs[1]), Some(instr.rhs()));
        }
        other => panic!("expected an addition, found {:?}", other),
    }
    let sum = fun.instr_value(instrs[2]).unwrap();
    // The end of the body has one predecessor: it returns the sum itself.
    assert_eq!(fun.block_preds(bb(1)), &vec![bb(0)]);
    assert!(fun.block_phis(bb(1)).is_empty());
    match fun.instr(*fun.block_instrs(bb(1)).last().unwrap()) {
        Instruction::Terminal(TerminalInstr::Return(instr)) => {
            assert_eq!(instr.return_value, Some(sum))
        }
        other => panic!("expected a return, found {:?}", other),
    }
}

#[test]
fn translates_locals() {
    // (param i32) (local i32): local1 = param + param; return local1
    let body = vec![
        Operator::LocalGet { local_index: 0 },
        Operator::LocalGet { local_index: 0 },
        Operator::I32Add,
        Operator::LocalTee { local_index: 1 },
        Operator::Drop,
        Operator::LocalGet { local_index: 1 },
        Operator::End,
    ];
    let fun = translate_wasm(&[WasmType::I32], &[WasmType::I32], &[(1, WasmType::I32)], body)
        .unwrap();
    let input = Value::from_raw(RawIdx::from_u32(0));
    assert_eq!(fun.value_assoc(input), ValueAssoc::Input(0));
    let instrs = fun.block_instrs(bb(0));
    // The zero of the local, the addition and the branch to the end.
    assert_eq!(instrs.len(), 3);
    match fun.instr(instrs[0]) {
        Instruction::Const(instr) => {
            assert_eq!(instr.const_value, Const::Int(IntConst::I32(0)))
        }
        other => panic!("expected a constant, found {:?}", other),
    }
    let sum = fun.instr_value(instrs[1]).unwrap();
    match fun.instr(instrs[1]) {
        Instruction::Int(IntInstr::Binary(instr)) => {
            assert_eq!(instr.lhs(), input);
            assert_eq!(instr.rhs(), input);
        }
        other => panic!("expected an addition, found {:?}", other),
    }
    match fun.instr(*fun.block_instrs(bb(1)).last().unwrap()) {
        Instruction::Terminal(TerminalInstr::Return(instr)) => {
            assert_eq!(instr.return_value, Some(sum))
        }
        other => panic!("expected a return, found {:?}", other),
    }
}

#[test]
fn translates_if_else_with_result() {
    // (param i32) (result i32): if param then 10 else 20
    let body = vec![
        Operator::LocalGet { local_index: 0 },
        Operator::If { ty: BlockType::Value(WasmType::I32) },
        Operator::I32Const { value: 10 },
        Operator::Else,
        Operator::I32Const { value: 20 },
        Operator::End,
        Operator::End,
    ];
    let fun = translate_wasm(&[WasmType::I32], &[WasmType::I32], &[], body).unwrap();
    // Entry, end of the body, both branches and the end of the `if`.
    assert_eq!(fun.len_blocks(), 5);
    let first = bb(2);
    let second = bb(3);
    let end = bb(4);
    assert_eq!(fun.block_preds(first), &vec![bb(0)]);
    assert_eq!(fun.block_preds(second), &vec![bb(0)]);
    assert_eq!(fun.block_preds(end), &vec![first, second]);
    // The end of the `if` merges the two constants in one phi.
    let phis = fun.block_phis(end);
    assert_eq!(phis.len(), 1);
    let ten = fun.instr_value(fun.block_instrs(first)[0]).unwrap();
    let twenty = fun.instr_value(fun.block_instrs(second)[0]).unwrap();
    match fun.instr(phis[0]) {
        Instruction::Phi(phi) => {
            assert_eq!(phi.operand_for(first), Some(ten));
            assert_eq!(phi.operand_for(second), Some(twenty));
            assert_eq!(phi.ty(), Type::Int(IntType::I32));
        }
        other => panic!("expected a phi, found {:?}", other),
    }
    let merged = fun.instr_value(phis[0]).unwrap();
    match fun.instr(*fun.block_instrs(bb(1)).last().unwrap()) {
        Instruction::Terminal(TerminalInstr::Return(instr)) => {
            assert_eq!(instr.return_value, Some(merged))
        }
        other => panic!("expected a return, found {:?}", other),
    }
}

#[test]
fn translates_counted_loop() {
    // (param i32) (local i32): while local < param { local += 1 }; return local
    let body = vec![
        Operator::Block { ty: BlockType::Empty },
        Operator::Loop { ty: BlockType::Empty },
        Operator::LocalGet { local_index: 1 },
        Operator::LocalGet { local_index: 0 },
        Operator::I32GeS,
        Operator::BrIf { relative_depth: 1 },
        Operator::LocalGet { local_index: 1 },
        Operator::I32Const { value: 1 },
        Operator::I32Add,
        Operator::LocalSet { local_index: 1 },
        Operator::Br { relative_depth: 0 },
        Operator::End,
        Operator::End,
        Operator::LocalGet { local_index: 1 },
        Operator::End,
    ];
    let fun = translate_wasm(&[WasmType::I32], &[WasmType::I32], &[(1, WasmType::I32)], body)
        .unwrap();
    // The head of the loop is the block after the end of the body and the
    // end of the `block`.
    let head = bb(3);
    assert_eq!(fun.block_preds(head).len(), 2);
    let phis = fun.block_phis(head);
    assert_eq!(phis.len(), 1);
    let counter = fun.instr_value(phis[0]).unwrap();
    match fun.instr(phis[0]) {
        Instruction::Phi(phi) => {
            assert_eq!(phi.operands.len(), 2);
            assert_eq!(phi.operands.is_trivial(counter), Ok(None));
        }
        other => panic!("expected a phi, found {:?}", other),
    }
    match fun.instr(*fun.block_instrs(bb(1)).last().unwrap()) {
        Instruction::Terminal(TerminalInstr::Return(instr)) => {
            assert_eq!(instr.return_value, Some(counter))
        }
        other => panic!("expected a return, found {:?}", other),
    }
}

#[test]
fn translates_function_without_result() {
    let body = vec![Operator::Nop, Operator::End];
    let fun = translate_wasm(&[], &[], &[], body).unwrap();
    match fun.instr(*fun.block_instrs(bb(1)).last().unwrap()) {
        Instruction::Terminal(TerminalInstr::Return(instr)) => {
            assert_eq!(instr.return_value, None)
        }
        other => panic!("expected a return, found {:?}", other),
    }
}

#[test]
fn skips_unreachable_code() {
    let body = vec![
        Operator::I32Const { value: 7 },
        Operator::Return,
        Operator::I32Add,
        Operator::Drop,
        Operator::End,
    ];
    let fun = translate_wasm(&[], &[WasmType::I32], &[], body).unwrap();
    assert_eq!(fun.block_instrs(bb(0)).len(), 2);
    assert_eq!(fun.block_preds(bb(1)), &vec![bb(0)]);
}

#[test]
fn rejects_stack_underflow() {
    let body = vec![Operator::I32Const { value: 1 }, Operator::I32Add, Operator::End];
    assert_eq!(
        translate_wasm(&[], &[WasmType::I32], &[], body).err(),
        Some(IrError::Wasm(WasmError::MissingStackValue { needed: 2, found: 1 }))
    );
    let body = vec![Operator::Drop, Operator::End];
    assert_eq!(
        translate_wasm(&[], &[], &[], body).err(),
        Some(IrError::Wasm(WasmError::MissingStackValue { needed: 1, found: 0 }))
    );
}

#[test]
fn rejects_unsupported_operator() {
    let body = vec![Operator::Unsupported, Operator::End];
    assert_eq!(
        translate_wasm(&[], &[], &[], body).err(),
        Some(IrError::Wasm(WasmError::UnsupportedOperator))
    );
}

#[test]
fn rejects_unmatching_operand_type() {
    let body = vec![
        Operator::I32Const { value: 1 },
        Operator::I64Const { value: 2 },
        Operator::I32Add,
        Operator::End,
    ];
    match translate_wasm(&[], &[WasmType::I32], &[], body).err() {
        Some(IrError::Wasm(WasmError::UnmatchingOperandType { expected, actual, .. })) => {
            assert_eq!(expected, Type::Int(IntType::I32));
            assert_eq!(actual, Type::Int(IntType::I64));
        }
        other => panic!("expected a type mismatch, found {:?}", other),
    }
}

#[test]
fn rejects_missing_local_and_operator_after_end() {
    let body = vec![Operator::LocalGet { local_index: 3 }, Operator::End];
    assert_eq!(
        translate_wasm(&[WasmType::I32], &[], &[], body).err(),
        Some(IrError::Wasm(WasmError::MissingLocalVariable { local_index: 3 }))
    );
    let mut translator = ValueNumbering::new(&[], &[], &[], &[Operator::End]).unwrap();
    assert_eq!(translator.push_operator(&Operator::End), Ok(()));
    assert_eq!(
        translator.push_operator(&Operator::Nop),
        Err(IrError::Wasm(WasmError::OperatorAfterEnd))
    );
    let translator = ValueNumbering::new(&[], &[], &[], &[]).unwrap();
    assert_eq!(translator.finish().err(), Some(IrError::Wasm(WasmError::MissingEnd)));
    assert!(translate_wasm(&[], &[WasmType::I32, WasmType::I32], &[], vec![]).is_err());
}

#[test]
fn stack_pops_in_push_order() {
    let ty = Type::Int(IntType::I32);
    let entry = |index: u32| runwell::wasm::ValueEntry {
        value: Value::from_raw(RawIdx::from_u32(index)),
        ty,
    };
    let mut stack = runwell::wasm::ValueStack::new();
    assert_eq!(stack.len(), 0);
    assert_eq!(
        stack.peek1(),
        Err(IrError::Wasm(WasmError::MissingStackValue { needed: 1, found: 0 }))
    );
    for index in 0..6 {
        stack.push(entry(index).value, ty);
    }
    assert_eq!(stack.peek1(), Ok(entry(5)));
    assert_eq!(stack.pop1(), Ok(entry(5)));
    assert_eq!(stack.pop2(), Ok((entry(3), entry(4))));
    assert_eq!(stack.pop3(), Ok((entry(0), entry(1), entry(2))));
    assert_eq!(stack.len(), 0);
    stack.push(entry(7).value, ty);
    assert_eq!(
        stack.pop2(),
        Err(IrError::Wasm(WasmError::MissingStackValue { needed: 2, found: 1 }))
    );
    assert_eq!(
        stack.pop3(),
        Err(IrError::Wasm(WasmError::MissingStackValue { needed: 3, found: 1 }))
    );
    assert_eq!(stack.len(), 1);
    stack.push(entry(8).value, ty);
    stack.truncate(5);
    assert_eq!(stack.len(), 2);
    stack.truncate(1);
    assert_eq!(stack.peek1(), Ok(entry(7)));
    stack.truncate(0);
    assert_eq!(
        stack.pop1(),
        Err(IrError::Wasm(WasmError::MissingStackValue { needed: 1, found: 0 }))
    );
}

#[test]
fn operators_are_told_apart() {
    assert_eq!(Operator::I32DivS.as_binary_int(), Some((IntType::I32, BinaryIntOp::Sdiv)));
    assert_eq!(Operator::I64Xor.as_binary_int(), Some((IntType::I64, BinaryIntOp::Xor)));
    assert_eq!(Operator::I64Eq.as_binary_int(), None);
    assert_eq!(
        Operator::I64LeU.as_compare_int(),
        Some((IntType::I64, runwell::instruction::CompareIntOp::Ule))
    );
    assert_eq!(Operator::Nop.as_compare_int(), None);
    assert_eq!(WasmType::F32.into_type(), Type::Float(runwell::primitive::FloatType::F32));
    assert_eq!(Type::from(WasmType::I64), Type::Int(IntType::I64));
}

#[test]
fn rejects_branch_to_missing_frame() {
    let body = vec![Operator::Br { relative_depth: 1 }, Operator::End];
    assert_eq!(
        translate_wasm(&[], &[], &[], body).err(),
        Some(IrError::Wasm(WasmError::MissingControlFrame { relative_depth: 1 }))
    );
    let body = vec![Operator::Else, Operator::End];
    assert_eq!(
        translate_wasm(&[], &[], &[], body).err(),
        Some(IrError::Wasm(WasmError::MissingControlFrame { relative_depth: 0 }))
    );
}

#[test]
fn translates_branch_out_of_block_with_result() {
    // (result i64): block (result i64) { 5; br 0; unreachable code }
    let body = vec![
        Operator::Block { ty: BlockType::Value(WasmType::I64) },
        Operator::I64Const { value: 5 },
        Operator::Br { relative_depth: 0 },
        Operator::I64Const { value: 6 },
        Operator::Unsupported,
        Operator::End,
        Operator::End,
    ];
    let fun = translate_wasm(&[], &[WasmType::I64], &[], body).unwrap();
    let five = fun.instr_value(fun.block_instrs(bb(0))[0]).unwrap();
    assert_eq!(fun.block_instrs(bb(0)).len(), 2);
    assert_eq!(fun.value_type(five), Type::Int(IntType::I64));
    match fun.instr(*fun.block_instrs(bb(1)).last().unwrap()) {
        Instruction::Terminal(TerminalInstr::Return(instr)) => {
            assert_eq!(instr.return_value, Some(five))
        }
        other => panic!("expected a return, found {:?}", other),
    }
}

#[test]
fn translates_trap_and_select() {
    let body = vec![
        Operator::I32Const { value: 1 },
        Operator::I32Const { value: 2 },
        Operator::LocalGet { local_index: 0 },
        Operator::Select,
        Operator::Drop,
        Operator::F32Const { bits: 0x3F80_0000 },
        Operator::F64Const { bits: 0 },
        Operator::Drop,
        Operator::Drop,
        Operator::Unreachable,
        Operator::End,
    ];
    let fun = translate_wasm(&[WasmType::I32], &[], &[], body).unwrap();
    let instrs = fun.block_instrs(bb(0));
    match fun.instr(*instrs.last().unwrap()) {
        Instruction::Terminal(TerminalInstr::Trap) => {}
        other => panic!("expected a trap, found {:?}", other),
    }
    assert!(instrs.iter().any(|instr| matches!(fun.instr(*instr), Instruction::Select(_))));
    // Control cannot reach the end of the body: it traps there.
    assert!(fun.block_preds(bb(1)).is_empty());
    match fun.instr(*fun.block_instrs(bb(1)).last().unwrap()) {
        Instruction::Terminal(TerminalInstr::Trap) => {}
        other => panic!("expected a trap, found {:?}", other),
    }
}

#[test]
fn translates_branch_table() {
    // (param i32) (result i32):
    //   block block local.get 0 br_table 0 1 1 end i32.const 10 return end i32.const 20
    let body = vec![
        Operator::Block { ty: BlockType::Empty },
        Operator::Block { ty: BlockType::Empty },
        Operator::LocalGet { local_index: 0 },
        Operator::BrTable { targets: vec![0, 1], default: 1 },
        Operator::End,
        Operator::I32Const { value: 10 },
        Operator::Return,
        Operator::End,
        Operator::I32Const { value: 20 },
        Operator::End,
    ];
    let fun = translate_wasm(&[WasmType::I32], &[WasmType::I32], &[], body).unwrap();
    // The entry, the end of the body and the ends of the two blocks.
    assert_eq!(fun.len_blocks(), 4);
    let (outer, inner) = (bb(2), bb(3));
    match fun.instr(*fun.block_instrs(bb(0)).last().unwrap()) {
        Instruction::Terminal(TerminalInstr::BranchTable(instr)) => {
            assert_eq!(fun.value_assoc(instr.case), ValueAssoc::Input(0));
            assert_eq!(instr.targets, vec![inner, outer]);
            assert_eq!(instr.default, outer);
        }
        other => panic!("expected a branch table, found {:?}", other),
    }
    // Each target has the entry block as its one predecessor.
    assert_eq!(fun.block_preds(inner), &vec![bb(0)]);
    assert_eq!(fun.block_preds(outer), &vec![bb(0)]);
    assert!(fun.block_phis(inner).is_empty());
    assert!(fun.block_phis(outer).is_empty());
}

#[test]
fn branch_table_needs_an_index() {
    let body = vec![Operator::BrTable { targets: vec![], default: 0 }, Operator::End];
    assert_eq!(
        translate_wasm(&[], &[], &[], body).err(),
        Some(IrError::Wasm(WasmError::MissingStackValue { needed: 1, found: 0 }))
    );
}

#[test]
fn branch_table_to_missing_frame_fails() {
    let body = vec![
        Operator::I32Const { value: 0 },
        Operator::BrTable { targets: vec![0, 4], default: 0 },
        Operator::End,
    ];
    assert_eq!(
        translate_wasm(&[], &[], &[], body).err(),
        Some(IrError::Wasm(WasmError::MissingControlFrame { relative_depth: 4 }))
    );
}

/// What a test can see of the state of a translator.
fn seen(translator: &ValueNumbering) -> (usize, usize, usize, usize, usize, bool, bool, u32) {
    (
        translator.stack.len(),
        translator.control.len(),
        translator.builder.ctx.len_instrs(),
        translator.builder.ctx.len_values(),
        translator.builder.ctx.len_blocks(),
        translator.reachable,
        translator.done,
        translator.next_result,
    )
}

#[test]
fn failed_operator_on_values_changes_nothing() {
    let body = [Operator::End];
    let mut translator = ValueNumbering::new(&[WasmType::I32], &[], &[], &body).unwrap();
    translator.push_operator(&Operator::I32Const { value: 5 }).unwrap();
    let before = seen(&translator);
    for operator in [Operator::I32Add, Operator::I32Mul, Operator::I32DivS, Operator::I32DivU] {
        assert_eq!(
            translator.push_operator(&operator),
            Err(IrError::Wasm(WasmError::MissingStackValue { needed: 2, found: 1 }))
        );
        assert_eq!(seen(&translator), before);
    }
    assert_eq!(
        translator.push_operator(&Operator::I64Eq),
        Err(IrError::Wasm(WasmError::MissingStackValue { needed: 2, found: 1 }))
    );
    assert_eq!(seen(&translator), before);
    assert!(translator.push_operator(&Operator::Select).is_err());
    assert_eq!(seen(&translator), before);
    assert!(translator.push_operator(&Operator::LocalSet { local_index: 9 }).is_err());
    assert_eq!(seen(&translator), before);
    // The translation goes on as if the operators had not been pushed.
    translator.push_operator(&Operator::Drop).unwrap();
    translator.push_operator(&Operator::End).unwrap();
    assert!(translator.finish().is_ok());
}

#[test]
fn failed_branch_changes_nothing() {
    let body = [Operator::End];
    let mut translator = ValueNumbering::new(&[], &[], &[], &body).unwrap();
    translator.push_operator(&Operator::I32Const { value: 1 }).unwrap();
    let before = seen(&translator);
    assert_eq!(
        translator.push_operator(&Operator::Br { relative_depth: 3 }),
        Err(IrError::Wasm(WasmError::MissingControlFrame { relative_depth: 3 }))
    );
    assert_eq!(seen(&translator), before);
    // The condition is back on the stack after the branch was refused.
    assert_eq!(
        translator.push_operator(&Operator::BrIf { relative_depth: 2 }),
        Err(IrError::Wasm(WasmError::MissingControlFrame { relative_depth: 2 }))
    );
    assert_eq!(seen(&translator), before);
    assert_eq!(
        translator.push_operator(&Operator::BrTable { targets: vec![0, 7], default: 0 }),
        Err(IrError::Wasm(WasmError::MissingControlFrame { relative_depth: 7 }))
    );
    assert_eq!(seen(&translator), before);
    translator.push_operator(&Operator::BrIf { relative_depth: 0 }).unwrap();
    assert_eq!(translator.stack.len(), 0);
    assert!(translator.reachable);
}

#[test]
fn variables_have_the_types_of_what_they_stand_for() {
    let body = [
        Operator::Block { ty: BlockType::Value(WasmType::F32) },
        Operator::Nop,
        Operator::If { ty: BlockType::Value(WasmType::I64) },
        Operator::End,
    ];
    let translator = ValueNumbering::new(
        &[WasmType::I32, WasmType::F64],
        &[WasmType::I64],
        &[(2, WasmType::I64), (1, WasmType::F32)],
        &body,
    )
    .unwrap();
    let expected = [
        Type::Int(IntType::I32),
        Type::Float(runwell::primitive::FloatType::F64),
        Type::Int(IntType::I64),
        Type::Int(IntType::I64),
        Type::Float(runwell::primitive::FloatType::F32),
        Type::Int(IntType::I64),
        Type::Float(runwell::primitive::FloatType::F32),
        Type::Int(IntType::I64),
    ];
    for (index, ty) in expected.iter().enumerate() {
        let var = runwell::primitive::Variable::from_raw(RawIdx::from_u32(index as u32));
        assert_eq!(translator.builder.ctx.vars.declared_type(var), Some(*ty));
    }
    let beyond = runwell::primitive::Variable::from_raw(RawIdx::from_u32(expected.len() as u32));
    assert_eq!(translator.builder.ctx.vars.declared_type(beyond), None);
    assert_eq!(translator.len_locals, 5);
    assert_eq!(translator.next_result, 6);
}
