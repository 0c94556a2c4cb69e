use runwell::builder::{Function, ValueAssoc};
use runwell::entity::RawIdx;
use runwell::error::IrError;
use runwell::instruction::{CompareIntOp, Instruction, IntInstr, TerminalInstr};
use runwell::primitive::{Block, Const, IntConst, IntType, Type, Value, Variable};

fn block(index: u32) -> Block {
    Block::from_raw(RawIdx::from_u32(index))
}

fn value(index: u32) -> Value {
    Value::from_raw(RawIdx::from_u32(index))
}

/// The value that the block returns, if it ends in a return.
fn returned(fun: &Function, of: Block) -> Option<Value> {
    let instrs = fun.block_instrs(of);
    match fun.instr(*instrs.last().unwrap()) {
        Instruction::Terminal(TerminalInstr::Return(instr)) => instr.return_value,
        _ => None,
    }
}

#[test]
fn ret_const_works() -> Result<(), IrError> {
    let mut b = Function::build()
        .with_inputs(&[])?
        .with_outputs(&[])?
        .body();
    let c = b.ins()?.constant(IntConst::I32(42))?;
    b.ins()?.return_value(c)?;
    b.seal_block()?;
    let fun = b.finalize()?;
    assert_eq!(fun.len_blocks(), 1);
    let instrs = fun.block_instrs(block(0));
    assert_eq!(instrs.len(), 2);
    match fun.instr(instrs[0]) {
        Instruction::Const(instr) => {
            assert_eq!(instr.const_value, Const::Int(IntConst::I32(42)))
        }
        other => panic!("expected a constant, found {:?}", other),
    }
    assert_eq!(returned(&fun, block(0)), Some(c));
    assert_eq!(fun.value_type(c), Type::Int(IntType::I32));
    Ok(())
}

#[test]
fn simple_block_works() -> Result<(), IrError> {
    let mut b = Function::build()
        .with_inputs(&[])?
        .with_outputs(&[])?
        .body();
    let v1 = b.ins()?.constant(IntConst::I32(1))?;
    let v2 = b.ins()?.constant(IntConst::I32(2))?;
    let v3 = b.ins()?.iadd(IntType::I32, v1, v2)?;
    let v3_old = v3;
    let v3 = b.ins()?.imul(IntType::I32, v3, v3)?;
    b.ins()?.return_value(v3)?;
    b.seal_block()?;
    let fun = b.finalize()?;
    assert_ne!(v3, v3_old);
    assert_eq!(returned(&fun, block(0)), Some(v3));
    assert_eq!(fun.block_instrs(block(0)).len(), 5);
    Ok(())
}

#[test]
fn if_then_else_works() -> Result<(), IrError> {
    let mut b = Function::build()
        .with_inputs(&[])?
        .with_outputs(&[])?
        .body();
    let then_block = b.create_block();
    let else_block = b.create_block();
    let v1 = b.ins()?.constant(IntConst::I32(1))?;
    let v2 = b.ins()?.constant(IntConst::I32(2))?;
    let v3 = b.ins()?.icmp(IntType::I32, CompareIntOp::Ule, v1, v2)?;
    let _v4 = b.ins()?.if_then_else(v3, then_block, else_block)?;
    b.seal_block()?;
    b.switch_to_block(then_block)?;
    let v5 = b.ins()?.constant(IntConst::I32(10))?;
    b.ins()?.return_value(v5)?;
    b.seal_block()?;
    b.switch_to_block(else_block)?;
    let v6 = b.ins()?.constant(IntConst::I32(20))?;
    b.ins()?.return_value(v6)?;
    b.seal_block()?;
    let fun = b.finalize()?;
    assert_eq!(fun.len_blocks(), 3);
    assert!(fun.block_preds(block(0)).is_empty());
    assert_eq!(fun.block_preds(then_block), &vec![block(0)]);
    assert_eq!(fun.block_preds(else_block), &vec![block(0)]);
    for index in 0..3 {
        assert!(fun.block_phis(block(index)).is_empty());
    }
    assert_eq!(fun.value_type(v3), Type::Bool);
    Ok(())
}

#[test]
fn simple_variable() -> Result<(), IrError> {
    let mut b = Function::build()
        .with_inputs(&[])?
        .with_outputs(&[])?
        .declare_variables(1, IntType::I32.into())?
        .body();
    let var = Variable::from_raw(RawIdx::from_u32(0));
    let v1 = b.ins()?.constant(IntConst::I32(1))?;
    b.write_var(var, v1)?;
    let v2 = b.read_var(var)?;
    assert_eq!(v2, v1);
    let v3 = b.ins()?.iadd(IntType::I32, v2, v2)?;
    b.ins()?.return_value(v3)?;
    b.seal_block()?;
    let fun = b.finalize()?;
    assert_eq!(returned(&fun, block(0)), Some(v3));
    Ok(())
}

#[test]
fn simple_input() -> Result<(), IrError> {
    let mut b = Function::build()
        .with_inputs(&[IntType::I32.into()])?
        .with_outputs(&[IntType::I32.into()])?
        .body();
    let input = Variable::from_raw(RawIdx::from_u32(0));
    let v0 = b.read_var(input)?;
    assert_eq!(v0, value(0));
    let v1 = b.ins()?.iadd(IntType::I32, v0, v0)?;
    b.ins()?.return_value(v1)?;
    b.seal_block()?;
    let fun = b.finalize()?;
    assert_eq!(fun.value_assoc(v0), ValueAssoc::Input(0));
    assert_eq!(fun.value_type(v0), Type::Int(IntType::I32));
    Ok(())
}

#[test]
fn simple_gvn_var_read() -> Result<(), IrError> {
    let mut b = Function::build()
        .with_inputs(&[IntType::I32.into()])?
        .with_outputs(&[])?
        .body();
    let var = Variable::from_raw(RawIdx::from_u32(0));
    let v0 = b.ins()?.constant(IntConst::I32(1))?;
    b.write_var(var, v0)?;
    let exit_block = b.create_block();
    b.ins()?.br(exit_block)?;
    b.seal_block()?;
    b.switch_to_block(exit_block)?;
    let read = b.read_var(var)?;
    b.ins()?.return_value(read)?;
    b.seal_block()?;
    let fun = b.finalize()?;
    // The block has one predecessor: the read is the constant itself.
    assert!(fun.block_phis(exit_block).is_empty());
    assert_eq!(returned(&fun, exit_block), Some(v0));
    Ok(())
}

#[test]
fn simple_gvn_if_works() -> Result<(), IrError> {
    let mut b = Function::build()
        .with_inputs(&[IntType::I32.into()])?
        .with_outputs(&[])?
        .declare_variables(1, IntType::I32.into())?
        .body();

    let then_block = b.create_block();
    let else_block = b.create_block();
    let exit_block = b.create_block();

    let input = Variable::from_raw(RawIdx::from_u32(0));
    let var = Variable::from_raw(RawIdx::from_u32(1));

    let v0 = b.read_var(input)?;
    let v1 = b.ins()?.constant(IntConst::I32(0))?;
    let v2 = b.ins()?.icmp(IntType::I32, CompareIntOp::Eq, v0, v1)?;
    b.ins()?.if_then_else(v2, then_block, else_block)?;
    b.seal_block()?;

    b.switch_to_block(then_block)?;
    let v3 = b.ins()?.constant(IntConst::I32(10))?;
    b.write_var(var, v3)?;
    b.ins()?.br(exit_block)?;
    b.seal_block()?;

    b.switch_to_block(else_block)?;
    let v4 = b.ins()?.constant(IntConst::I32(20))?;
    b.write_var(var, v4)?;
    b.ins()?.br(exit_block)?;
    b.seal_block()?;

    b.switch_to_block(exit_block)?;
    let v5 = b.read_var(var)?;
    b.ins()?.return_value(v5)?;
    b.seal_block()?;

    let fun = b.finalize()?;

    // The exit block holds exactly one phi, which merges both constants.
    let phis = fun.block_phis(exit_block);
    assert_eq!(phis.len(), 1);
    assert_eq!(fun.instr_value(phis[0]), Some(v5));
    match fun.instr(phis[0]) {
        Instruction::Phi(phi) => {
            assert_eq!(phi.operand_for(then_block), Some(v3));
            assert_eq!(phi.operand_for(else_block), Some(v4));
            assert_eq!(phi.operands.len(), 2);
            assert_eq!(phi.operands.is_trivial(v5), Ok(None));
        }
        other => panic!("expected a phi, found {:?}", other),
    }
    assert_eq!(returned(&fun, exit_block), Some(v5));
    Ok(())
}

#[test]
fn simple_loop_works() -> Result<(), IrError> {
    let mut b = Function::build()
        .with_inputs(&[IntType::I32.into()])?
        .with_outputs(&[])?
        .declare_variables(1, IntType::I32.into())?
        .body();

    let loop_head = b.create_block();
    let loop_body = b.create_block();
    let loop_exit = b.create_block();

    let input = Variable::from_raw(RawIdx::from_u32(0));
    let counter = Variable::from_raw(RawIdx::from_u32(1));

    let v0 = b.ins()?.constant(IntConst::I32(0))?;
    b.write_var(counter, v0)?;
    b.ins()?.br(loop_head)?;
    b.seal_block()?;

    b.switch_to_block(loop_head)?;
    let v1 = b.read_var(counter)?;
    let v2 = b.read_var(input)?;
    let v3 = b.ins()?.icmp(IntType::I32, CompareIntOp::Slt, v1, v2)?;
    b.ins()?.if_then_else(v3, loop_body, loop_exit)?;

    b.switch_to_block(loop_body)?;
    let v4 = b.read_var(counter)?;
    let v5 = b.ins()?.constant(IntConst::I32(1))?;
    let v6 = b.ins()?.iadd(IntType::I32, v4, v5)?;
    b.write_var(counter, v6)?;
    b.ins()?.br(loop_head)?;
    b.seal_block()?;

    b.seal_block_at(loop_head)?;

    b.switch_to_block(loop_exit)?;
    let v7 = b.read_var(counter)?;
    b.ins()?.return_value(v7)?;
    b.seal_block()?;

    let fun = b.finalize()?;

    // The loop head has two predecessors and one phi for the counter.
    assert_eq!(fun.block_preds(loop_head), &vec![block(0), loop_body]);
    let phis = fun.block_phis(loop_head);
    assert_eq!(phis.len(), 1);
    assert_eq!(fun.instr_value(phis[0]), Some(v1));
    match fun.instr(phis[0]) {
        Instruction::Phi(phi) => {
            assert_eq!(phi.operand_for(block(0)), Some(v0));
            assert_eq!(phi.operand_for(loop_body), Some(v6));
            assert_eq!(phi.operands.is_trivial(v1), Ok(None));
        }
        other => panic!("expected a phi, found {:?}", other),
    }
    // The phis of the body and of the exit were trivial: the counter reads as
    // the phi of the loop head in both.
    assert_ne!(v4, v1);
    assert_ne!(v7, v1);
    assert!(fun.block_phis(loop_body).is_empty());
    assert!(fun.block_phis(loop_exit).is_empty());
    match fun.instr(fun.block_instrs(loop_body)[1]) {
        Instruction::Int(IntInstr::Binary(instr)) => {
            assert_eq!(instr.lhs, v1);
            assert_eq!(instr.rhs, v5);
        }
        other => panic!("expected an addition, found {:?}", other),
    }
    assert_eq!(returned(&fun, loop_exit), Some(v1));
    // The phi for the input in the loop head was trivial: the input is read as itself.
    assert_ne!(v2, value(0));
    match fun.instr(fun.block_instrs(loop_head)[0]) {
        Instruction::Int(IntInstr::Compare(instr)) => {
            assert_eq!(instr.lhs, v1);
            assert_eq!(instr.rhs, value(0));
        }
        other => panic!("expected a comparison, found {:?}", other),
    }
    Ok(())
}

#[test]
fn branch_table_makes_predecessors() -> Result<(), IrError> {
    let mut b = Function::build()
        .with_inputs(&[IntType::I32.into()])?
        .with_outputs(&[])?
        .declare_variables(1, IntType::I32.into())?
        .body();
    let first = b.create_block();
    let second = b.create_block();
    let index = b.read_var(Variable::from_raw(RawIdx::from_u32(0)))?;
    let instr = b.ins()?.br_table(index, second, vec![first, second, first])?;
    b.seal_block()?;
    for target in [first, second] {
        b.switch_to_block(target)?;
        b.ins()?.return_nothing()?;
        b.seal_block()?;
    }
    let fun = b.finalize()?;
    // A block is a predecessor once, however often it branches to a target.
    assert_eq!(fun.block_preds(first), &vec![block(0)]);
    assert_eq!(fun.block_preds(second), &vec![block(0)]);
    assert_eq!(fun.block_instrs(block(0)).last(), Some(&instr));
    match fun.instr(instr) {
        Instruction::Terminal(TerminalInstr::BranchTable(table)) => {
            assert_eq!(table.case, index);
            assert_eq!(table.default, second);
            assert_eq!(table.targets, vec![first, second, first]);
        }
        other => panic!("expected a branch table, found {:?}", other),
    }
    Ok(())
}

#[test]
fn branch_table_to_sealed_block_fails() -> Result<(), IrError> {
    let mut b = Function::build()
        .with_inputs(&[IntType::I32.into()])?
        .with_outputs(&[])?
        .declare_variables(1, IntType::I32.into())?
        .body();
    let open = b.create_block();
    let sealed = b.create_block();
    b.switch_to_block(sealed)?;
    b.seal_block()?;
    b.switch_to_block(block(0))?;
    let index = b.read_var(Variable::from_raw(RawIdx::from_u32(0)))?;
    assert_eq!(
        b.ins()?.br_table(index, open, vec![open, sealed]).err(),
        Some(IrError::FunctionBuilder(
            runwell::error::FunctionBuilderError::PredecessorForSealedBlock {
                sealed_block: sealed,
                new_pred: block(0),
            }
        ))
    );
    // Nothing was appended: the block can still be ended.
    b.ins()?.br(open)?;
    Ok(())
}
