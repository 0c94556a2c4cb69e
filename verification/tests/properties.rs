use runwell::builder::{Function, FunctionBuilder, ValueAssoc};
use runwell::builder::state::Body;
use runwell::entity::Index32;
use runwell::error::{FunctionBuilderError, IrError, VariableAccess};
use runwell::instruction::{CompareIntOp, Instruction, TerminalInstr};
use runwell::primitive::{Block, FloatType, IntConst, IntType, Type, Value, Variable};

fn i32_type() -> Type {
    Type::Int(IntType::I32)
}

fn body(variables: u32) -> FunctionBuilder<Body> {
    Function::build()
        .with_inputs(&[])
        .unwrap()
        .with_outputs(&[])
        .unwrap()
        .declare_variables(variables, i32_type())
        .unwrap()
        .body()
}

fn references(builder: &FunctionBuilder<Body>, value: Value) -> bool {
    (0..builder.ctx.len_instrs())
        .any(|index| !builder.ctx.instr(runwell::instruction::Instr::from_u32(index as u32)).visit_values(&|used| used != value))
}

#[test]
fn read_in_sealed_entry_without_write_fails() {
    let mut b = body(2);
    let var = Variable::from_u32(0);
    // Never written anywhere.
    assert_eq!(
        b.read_var(var),
        Err(IrError::FunctionBuilder(FunctionBuilderError::ReadBeforeWriteVariable {
            variable: var
        }))
    );
    // Not declared.
    assert_eq!(
        b.read_var(Variable::from_u32(2)),
        Err(IrError::FunctionBuilder(FunctionBuilderError::MissingDeclarationForVariable {
            variable: Variable::from_u32(2),
            access: VariableAccess::Read,
        }))
    );
    // Written, but only in a block that does not lead to the entry block.
    let other = b.create_block();
    b.switch_to_block(other).unwrap();
    let value = b.ins().unwrap().constant(IntConst::I32(1)).unwrap();
    b.write_var(var, value).unwrap();
    b.switch_to_block(Block::from_u32(0)).unwrap();
    b.seal_block().unwrap();
    let instrs = b.ctx.len_instrs();
    assert_eq!(
        b.read_var(var),
        Err(IrError::FunctionBuilder(FunctionBuilderError::ReadBeforeWriteVariable {
            variable: var
        }))
    );
    assert_eq!(b.ctx.len_instrs(), instrs);
}

#[test]
fn unsealed_block_gets_a_waiting_phi() {
    let mut b = body(1);
    let var = Variable::from_u32(0);
    let value = b.ins().unwrap().constant(IntConst::I32(1)).unwrap();
    b.write_var(var, value).unwrap();
    let next = b.create_block();
    b.ins().unwrap().br(next).unwrap();
    b.switch_to_block(next).unwrap();
    let read = b.read_var(var).unwrap();
    assert_ne!(read, value);
    assert_eq!(b.ctx.type_of(read), i32_type());
    assert_eq!(b.ctx.block(next).phis.len(), 1);
    assert_eq!(b.ctx.block(next).incomplete_phis, vec![(var, read)]);
    // A second read gives the same value and no second phi.
    assert_eq!(b.read_var(var), Ok(read));
    assert_eq!(b.ctx.block(next).phis.len(), 1);
    let user = b.ins().unwrap().iadd(IntType::I32, read, read).unwrap();
    b.ins().unwrap().return_value(user).unwrap();
    // Sealing completes the phi; with one predecessor it is trivial.
    b.seal_block().unwrap();
    assert!(b.ctx.block(next).phis.is_empty());
    assert!(b.ctx.block(next).incomplete_phis.is_empty());
    assert!(!references(&b, read));
    assert!(references(&b, value));
    assert_eq!(b.read_var(var), Ok(value));
}

#[test]
fn single_predecessor_never_gets_a_phi() {
    let mut b = body(3);
    let entry = Block::from_u32(0);
    let values: Vec<Value> = (0..3)
        .map(|index| {
            let value = b.ins().unwrap().constant(IntConst::I32(index)).unwrap();
            b.write_var(Variable::from_u32(index as u32), value).unwrap();
            value
        })
        .collect();
    b.seal_block().unwrap();
    // A chain of blocks with one predecessor each.
    let mut last = entry;
    for _ in 0..4 {
        let next = b.create_block();
        b.ins().unwrap().br(next).unwrap();
        b.switch_to_block(next).unwrap();
        b.seal_block().unwrap();
        last = next;
    }
    let instrs = b.ctx.len_instrs();
    for (index, value) in values.iter().enumerate() {
        assert_eq!(b.read_var(Variable::from_u32(index as u32)), Ok(*value));
    }
    // No instruction was added: no phi was made, in no block.
    assert_eq!(b.ctx.len_instrs(), instrs);
    for index in 0..5 {
        assert!(b.ctx.block(Block::from_u32(index)).phis.is_empty());
    }
    assert_eq!(b.ctx.block(last).preds, vec![Block::from_u32(3)]);
}

#[test]
fn same_value_from_two_predecessors_needs_no_phi() {
    let mut b = body(1);
    let var = Variable::from_u32(0);
    let first = b.create_block();
    let second = b.create_block();
    let merge = b.create_block();
    let value = b.ins().unwrap().constant(IntConst::I32(7)).unwrap();
    let zero = b.ins().unwrap().constant(IntConst::I32(0)).unwrap();
    let flag = b.ins().unwrap().icmp(IntType::I32, CompareIntOp::Ne, value, zero).unwrap();
    b.ins().unwrap().if_then_else(flag, first, second).unwrap();
    b.seal_block().unwrap();
    for block in [first, second] {
        b.switch_to_block(block).unwrap();
        b.seal_block().unwrap();
        b.write_var(var, value).unwrap();
        b.ins().unwrap().br(merge).unwrap();
    }
    b.switch_to_block(merge).unwrap();
    b.seal_block().unwrap();
    // The phi of the merge block is trivial: the read is the value itself.
    assert_eq!(b.read_var(var), Ok(value));
    assert!(b.ctx.block(merge).phis.is_empty());
    assert_eq!(b.ctx.block(merge).preds, vec![first, second]);
    b.ins().unwrap().return_value(value).unwrap();
    let fun = b.finalize().unwrap();
    assert!(fun.block_phis(merge).is_empty());
}

#[test]
fn replace_all_uses_leaves_no_reference() {
    let mut b = body(1);
    let var = Variable::from_u32(0);
    let old = b.ins().unwrap().constant(IntConst::I32(1)).unwrap();
    let new = b.ins().unwrap().constant(IntConst::I32(2)).unwrap();
    let sum = b.ins().unwrap().iadd(IntType::I32, old, old).unwrap();
    let product = b.ins().unwrap().imul(IntType::I32, sum, old).unwrap();
    b.write_var(var, old).unwrap();
    b.ins().unwrap().return_value(old).unwrap();
    assert!(references(&b, old));
    b.replace_all_uses(old, new);
    assert!(!references(&b, old));
    assert!(references(&b, new));
    assert!(references(&b, sum));
    assert!(!references(&b, product));
    assert_eq!(b.ctx.vars.definition(var, Block::from_u32(0)), Some(new));
    assert!(b.users_of(old).is_empty());
    assert_eq!(b.users_of(new).len(), 4);
}

#[test]
fn sealing_twice_is_an_error() {
    let mut b = body(0);
    assert_eq!(b.seal_block(), Ok(()));
    assert_eq!(
        b.seal_block(),
        Err(IrError::FunctionBuilder(FunctionBuilderError::BlockAlreadySealed {
            block: Block::from_u32(0)
        }))
    );
    let other = b.create_block();
    assert_eq!(b.seal_block_at(other), Ok(()));
    assert_eq!(
        b.seal_block_at(other),
        Err(IrError::FunctionBuilder(FunctionBuilderError::BlockAlreadySealed { block: other }))
    );
}

#[test]
fn builder_refuses_contract_violations() {
    let mut b = body(1);
    let entry = Block::from_u32(0);
    let var = Variable::from_u32(0);
    let sealed = b.create_block();
    let open = b.create_block();
    b.seal_block_at(sealed).unwrap();
    let value = b.ins().unwrap().constant(IntConst::I64(1)).unwrap();
    let flag = b.ins().unwrap().icmp(IntType::I64, CompareIntOp::Eq, value, value).unwrap();
    assert_eq!(b.ctx.type_of(flag), Type::Bool);
    assert_eq!(b.ctx.assoc(flag), ValueAssoc::Instr(runwell::instruction::Instr::from_u32(1)));

    assert_eq!(
        b.write_var(var, value),
        Err(IrError::FunctionBuilder(FunctionBuilderError::UnmatchingVariableType {
            variable: var,
            value,
            declared: i32_type(),
            actual: Type::Int(IntType::I64),
        }))
    );
    assert_eq!(
        b.write_var(Variable::from_u32(1), value),
        Err(IrError::FunctionBuilder(FunctionBuilderError::MissingDeclarationForVariable {
            variable: Variable::from_u32(1),
            access: VariableAccess::Write(value),
        }))
    );
    assert_eq!(
        b.ins().unwrap().br(sealed),
        Err(IrError::FunctionBuilder(FunctionBuilderError::PredecessorForSealedBlock {
            sealed_block: sealed,
            new_pred: entry,
        }))
    );
    assert_eq!(
        b.ins().unwrap().if_then_else(flag, open, sealed),
        Err(IrError::FunctionBuilder(FunctionBuilderError::PredecessorForSealedBlock {
            sealed_block: sealed,
            new_pred: entry,
        }))
    );
    assert_eq!(
        b.ins().unwrap().if_then_else(flag, open, open),
        Err(IrError::FunctionBuilder(FunctionBuilderError::BranchAlreadyExists {
            from: entry,
            to: open,
        }))
    );
    // Nothing was appended by the refused operations.
    assert_eq!(b.ctx.len_instrs(), 2);
    assert!(b.ctx.block(open).preds.is_empty());
    b.ins().unwrap().trap().unwrap();
    assert_eq!(
        b.ins().err(),
        Some(IrError::FunctionBuilder(FunctionBuilderError::BlockAlreadyFilled { block: entry }))
    );
    assert_eq!(
        b.switch_to_block(entry),
        Err(IrError::FunctionBuilder(FunctionBuilderError::BlockAlreadyFilled { block: entry }))
    );
    assert_eq!(b.current_block(), entry);
}

#[test]
fn finalize_reports_the_first_defect() {
    let mut b = body(0);
    let other = b.create_block();
    assert_eq!(
        b.finalize().err(),
        Some(IrError::FunctionBuilder(FunctionBuilderError::BlockNotFilledAtFinalize {
            block: Block::from_u32(0)
        }))
    );
    let mut b = body(0);
    let other2 = b.create_block();
    assert_eq!(other, other2);
    b.ins().unwrap().br(other).unwrap();
    assert_eq!(
        b.finalize().err(),
        Some(IrError::FunctionBuilder(FunctionBuilderError::BlockNotSealedAtFinalize {
            block: Block::from_u32(0)
        }))
    );
    let mut b = body(0);
    let other = b.create_block();
    b.ins().unwrap().br(other).unwrap();
    b.seal_block().unwrap();
    b.switch_to_block(other).unwrap();
    b.ins().unwrap().return_nothing().unwrap();
    assert_eq!(
        b.finalize().err(),
        Some(IrError::FunctionBuilder(FunctionBuilderError::BlockNotSealedAtFinalize {
            block: other
        }))
    );
}

#[test]
fn finished_function_has_one_terminal_per_block() {
    let mut b = Function::build()
        .with_inputs(&[i32_type(), Type::Float(FloatType::F32)])
        .unwrap()
        .with_outputs(&[i32_type()])
        .unwrap()
        .declare_variables(1, i32_type())
        .unwrap()
        .body();
    let input = b.read_var(Variable::from_u32(0)).unwrap();
    assert_eq!(b.read_var(Variable::from_u32(1)), Ok(Value::from_u32(1)));
    let first = b.create_block();
    let second = b.create_block();
    let zero = b.ins().unwrap().constant(IntConst::I32(0)).unwrap();
    let flag = b.ins().unwrap().icmp(IntType::I32, CompareIntOp::Sgt, input, zero).unwrap();
    let chosen = b.ins().unwrap().select(flag, i32_type(), input, zero).unwrap();
    b.ins().unwrap().if_then_else(flag, first, second).unwrap();
    b.seal_block().unwrap();
    b.switch_to_block(first).unwrap();
    b.seal_block().unwrap();
    b.ins().unwrap().return_value(chosen).unwrap();
    b.switch_to_block(second).unwrap();
    b.seal_block().unwrap();
    b.ins().unwrap().trap().unwrap();
    let fun = b.finalize().unwrap();

    assert_eq!(fun.len_blocks(), 3);
    assert_eq!(fun.len_values(), 5);
    assert_eq!(fun.len_instrs(), 6);
    for index in 0..3 {
        let block = Block::from_u32(index);
        let instrs = fun.block_instrs(block);
        for (position, instr) in instrs.iter().enumerate() {
            assert_eq!(fun.instr(*instr).is_terminal(), position + 1 == instrs.len());
            // Every instruction that defines a value is recorded as its origin.
            match fun.instr_value(*instr) {
                Some(value) => {
                    assert_eq!(fun.value_assoc(value), ValueAssoc::Instr(*instr));
                    assert_eq!(fun.instr(*instr).ty(), Some(fun.value_type(value)));
                }
                None => assert!(fun.instr(*instr).is_terminal()),
            }
        }
    }
    // The targets of the branch have the entry block as predecessor.
    match fun.instr(*fun.block_instrs(Block::from_u32(0)).last().unwrap()) {
        Instruction::Terminal(TerminalInstr::Ite(instr)) => {
            assert!(fun.block_preds(instr.then_target).contains(&Block::from_u32(0)));
            assert!(fun.block_preds(instr.else_target).contains(&Block::from_u32(0)));
        }
        other => panic!("expected a branch, found {:?}", other),
    }
    assert_eq!(fun.value_assoc(Value::from_u32(1)), ValueAssoc::Input(1));
    assert_eq!(fun.value_type(Value::from_u32(1)), Type::Float(FloatType::F32));
}

#[test]
fn phi_with_itself_as_only_operand_is_unreachable() {
    let mut b = body(1);
    let var = Variable::from_u32(0);
    let value = b.ins().unwrap().constant(IntConst::I32(1)).unwrap();
    b.write_var(var, value).unwrap();
    b.ins().unwrap().return_value(value).unwrap();
    b.seal_block().unwrap();
    // A block that only branches to itself: control cannot reach it.
    let island = b.create_block();
    b.switch_to_block(island).unwrap();
    let read = b.read_var(var).unwrap();
    b.ins().unwrap().br(island).unwrap();
    assert_eq!(
        b.seal_block_at(island),
        Err(IrError::FunctionBuilder(FunctionBuilderError::UnreachablePhi { value: read }))
    );
}

#[test]
fn reading_up_a_circle_of_sealed_blocks_fails() {
    let mut b = body(1);
    let var = Variable::from_u32(0);
    let value = b.ins().unwrap().constant(IntConst::I32(1)).unwrap();
    b.write_var(var, value).unwrap();
    b.ins().unwrap().return_value(value).unwrap();
    b.seal_block().unwrap();
    let first = b.create_block();
    let second = b.create_block();
    b.switch_to_block(first).unwrap();
    b.ins().unwrap().br(second).unwrap();
    b.switch_to_block(second).unwrap();
    b.ins().unwrap().br(first).unwrap();
    b.seal_block_at(first).unwrap();
    b.seal_block_at(second).unwrap();
    // Both blocks are sealed with one predecessor each and have no definition.
    let island = b.create_block();
    b.switch_to_block(island).unwrap();
    assert_eq!(
        b.read_var_in(var, first),
        Err(IrError::FunctionBuilder(FunctionBuilderError::ReadBeforeWriteVariable {
            variable: var
        }))
    );
}

#[test]
fn failed_read_leaves_function_unchanged() {
    let mut b = body(1);
    let var = Variable::from_u32(0);
    let written = b.create_block();
    let unwritten = b.create_block();
    let merge = b.create_block();
    let one = b.ins().unwrap().constant(IntConst::I32(1)).unwrap();
    let flag = b.ins().unwrap().icmp(IntType::I32, CompareIntOp::Ule, one, one).unwrap();
    b.ins().unwrap().if_then_else(flag, written, unwritten).unwrap();
    b.seal_block().unwrap();
    b.switch_to_block(written).unwrap();
    b.seal_block().unwrap();
    let seven = b.ins().unwrap().constant(IntConst::I32(7)).unwrap();
    b.write_var(var, seven).unwrap();
    b.ins().unwrap().br(merge).unwrap();
    b.switch_to_block(unwritten).unwrap();
    b.seal_block().unwrap();
    b.ins().unwrap().br(merge).unwrap();
    b.switch_to_block(merge).unwrap();
    b.seal_block().unwrap();
    let instrs = b.ctx.len_instrs();
    let values = b.ctx.len_values();
    // The read gives the block a ϕ-instruction and then finds that one way
    // into the block has no write of the variable.
    assert_eq!(
        b.read_var(var),
        Err(IrError::FunctionBuilder(FunctionBuilderError::ReadBeforeWriteVariable {
            variable: var
        }))
    );
    assert_eq!(b.ctx.len_instrs(), instrs);
    assert_eq!(b.ctx.len_values(), values);
    assert!(b.ctx.block(merge).phis.is_empty());
    assert!(b.users_of(seven).is_empty());
    // The builder goes on as if the read had not been tried.
    b.write_var(var, one).unwrap();
    assert_eq!(b.read_var(var), Ok(one));
    b.ins().unwrap().return_value(one).unwrap();
    let fun = b.finalize().unwrap();
    assert_eq!(fun.len_instrs(), instrs + 1);
}

#[test]
fn failed_seal_leaves_function_unchanged() {
    let mut b = body(1);
    let var = Variable::from_u32(0);
    let value = b.ins().unwrap().constant(IntConst::I32(1)).unwrap();
    b.write_var(var, value).unwrap();
    b.ins().unwrap().return_value(value).unwrap();
    b.seal_block().unwrap();
    let island = b.create_block();
    b.switch_to_block(island).unwrap();
    let read = b.read_var(var).unwrap();
    b.ins().unwrap().br(island).unwrap();
    assert_eq!(
        b.seal_block_at(island),
        Err(IrError::FunctionBuilder(FunctionBuilderError::UnreachablePhi { value: read }))
    );
    // The block is as it was: not sealed, with its ϕ-instruction waiting.
    let data = b.ctx.block(island);
    assert!(!data.sealed);
    assert_eq!(data.incomplete_phis, vec![(var, read)]);
    assert_eq!(data.phis.len(), 1);
    match b.ctx.instr(data.phis[0]) {
        Instruction::Phi(phi) => assert_eq!(phi.operands.len(), 0),
        other => panic!("expected a phi, found {:?}", other),
    }
    assert_eq!(
        b.seal_block_at(island),
        Err(IrError::FunctionBuilder(FunctionBuilderError::UnreachablePhi { value: read }))
    );
}

#[test]
fn clone_of_instruction_is_equal() {
    let mut targets = Vec::new();
    targets.push(Block::from_u32(2));
    targets.push(Block::from_u32(1));
    let table = Instruction::Terminal(TerminalInstr::BranchTable(
        runwell::instruction::BranchTableInstr::new(Value::from_u32(4), Block::from_u32(3), targets),
    ));
    assert_eq!(table.clone(), table);
    let mut phi = runwell::instruction::PhiInstr::new(i32_type());
    phi.append_operand(Block::from_u32(0), Value::from_u32(1));
    phi.append_operand(Block::from_u32(5), Value::from_u32(2));
    let phi = Instruction::Phi(phi);
    assert_eq!(phi.clone(), phi);
}

#[test]
fn sealing_gives_waiting_phis_the_definitions_of_the_predecessors() {
    let mut b = body(1);
    let var = Variable::from_u32(0);
    let left = b.create_block();
    let right = b.create_block();
    let merge = b.create_block();
    let one = b.ins().unwrap().constant(IntConst::I32(1)).unwrap();
    let flag = b.ins().unwrap().icmp(IntType::I32, CompareIntOp::Ule, one, one).unwrap();
    b.ins().unwrap().if_then_else(flag, left, right).unwrap();
    b.seal_block().unwrap();
    b.switch_to_block(left).unwrap();
    b.seal_block().unwrap();
    let ten = b.ins().unwrap().constant(IntConst::I32(10)).unwrap();
    b.write_var(var, ten).unwrap();
    b.ins().unwrap().br(merge).unwrap();
    b.switch_to_block(right).unwrap();
    b.seal_block().unwrap();
    let twenty = b.ins().unwrap().constant(IntConst::I32(20)).unwrap();
    b.write_var(var, twenty).unwrap();
    b.ins().unwrap().br(merge).unwrap();
    // The block is read in before it is sealed: the phi waits.
    b.switch_to_block(merge).unwrap();
    let read = b.read_var(var).unwrap();
    assert_eq!(b.ctx.block(merge).incomplete_phis, vec![(var, read)]);
    b.ins().unwrap().return_value(read).unwrap();
    b.seal_block().unwrap();
    assert!(b.ctx.block(merge).incomplete_phis.is_empty());
    assert_eq!(b.ctx.phi_block_of(read), Some(merge));
    let phis = b.ctx.block(merge).phis.clone();
    assert_eq!(phis.len(), 1);
    match b.ctx.instr(phis[0]) {
        Instruction::Phi(phi) => {
            assert_eq!(phi.operands.len(), 2);
            assert_eq!(phi.operand_for(left), Some(ten));
            assert_eq!(phi.operand_for(right), Some(twenty));
            assert_eq!(phi.operands.is_trivial(read), Ok(None));
        }
        other => panic!("expected a phi, found {:?}", other),
    }
    assert!(b.finalize().is_ok());
}

#[test]
fn removing_a_trivial_phi_checks_the_phis_that_used_it() {
    let mut b = body(1);
    let var = Variable::from_u32(0);
    let head = b.create_block();
    let back = b.create_block();
    let out = b.create_block();
    let one = b.ins().unwrap().constant(IntConst::I32(1)).unwrap();
    b.write_var(var, one).unwrap();
    b.ins().unwrap().br(head).unwrap();
    b.seal_block().unwrap();
    // The head of a loop in which the variable is not written.
    b.switch_to_block(head).unwrap();
    let in_head = b.read_var(var).unwrap();
    let flag = b.ins().unwrap().icmp(IntType::I32, CompareIntOp::Ule, in_head, in_head).unwrap();
    b.ins().unwrap().if_then_else(flag, back, out).unwrap();
    b.switch_to_block(back).unwrap();
    // The block in the loop is read in before it is sealed, too.
    let in_back = b.read_var(var).unwrap();
    assert_ne!(in_back, in_head);
    b.ins().unwrap().br(head).unwrap();
    b.seal_block().unwrap();
    // Its phi was trivial: it gave way to the phi of the head.
    assert_eq!(b.read_var(var), Ok(in_head));
    // Sealing the head makes its phi trivial in turn: both have given way.
    b.seal_block_at(head).unwrap();
    assert!(b.ctx.block(head).phis.is_empty());
    assert!(b.ctx.block(back).phis.is_empty());
    assert_eq!(b.ctx.phi_block_of(in_head), None);
    assert!(!references(&b, in_head));
    assert!(!references(&b, in_back));
    b.switch_to_block(out).unwrap();
    b.seal_block().unwrap();
    assert_eq!(b.read_var(var), Ok(one));
    b.ins().unwrap().return_value(one).unwrap();
    assert!(b.finalize().is_ok());
}
