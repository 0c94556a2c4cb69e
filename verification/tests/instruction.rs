use runwell::basicblock::BasicBlock;
use runwell::entity::{Index32, RawIdx};
use runwell::error::{FunctionBuilderError, IrError};
use runwell::instruction::{
    BinaryIntInstr,
    BinaryIntOp,
    BranchInstr,
    CallInstr,
    ConstInstr,
    IfThenElseInstr,
    IncompletePhi,
    Instruction,
    IntInstr,
    PhiInstr,
    ReturnInstr,
    SelectInstr,
    TerminalInstr,
};
use runwell::primitive::{
    Block,
    Const,
    FloatConst,
    FloatType,
    Func,
    IntConst,
    IntType,
    Type,
    Value,
    F32,
    F64,
};

#[test]
fn is_trivial_works() {
    let op = (0..3)
        .into_iter()
        .map(|raw| {
            let raw = RawIdx::from_u32(raw);
            (Block::from_raw(raw), Value::from_raw(raw))
        })
        .collect::<Vec<_>>();

    // First create a non-trivial phi-instruction.
    let mut non_trivial_phi = IncompletePhi::default();
    non_trivial_phi.append_operand(op[0].0, op[0].1);
    non_trivial_phi.append_operand(op[1].0, op[1].1);
    assert_eq!(non_trivial_phi.is_trivial(op[2].1), Ok(None));

    // Assert triviality of simple trivial phi-instruction.
    let mut trivial_phi_1 = IncompletePhi::default();
    let v = op[0].1;
    trivial_phi_1.append_operand(op[0].0, v);
    trivial_phi_1.append_operand(op[1].0, v);
    assert_eq!(trivial_phi_1.is_trivial(op[2].1), Ok(Some(v)));

    // Assert triviality of trivial phi-instruction that has itself as operand.
    let mut trivial_phi_2 = IncompletePhi::default();
    let v = op[0].1;
    let phi = op[2].1;
    trivial_phi_2.append_operand(op[0].0, v);
    trivial_phi_2.append_operand(op[1].0, v);
    trivial_phi_2.append_operand(op[2].0, phi);
    assert_eq!(trivial_phi_2.is_trivial(phi), Ok(Some(v)));
}

#[test]
fn phi_without_foreign_operand_is_unreachable() {
    let phi_value = Value::from_u32(9);
    let mut phi = IncompletePhi::new();
    assert_eq!(
        phi.is_trivial(phi_value),
        Err(IrError::FunctionBuilder(FunctionBuilderError::UnreachablePhi { value: phi_value }))
    );
    phi.append_operand(Block::from_u32(0), phi_value);
    assert_eq!(
        phi.is_trivial(phi_value),
        Err(IrError::FunctionBuilder(FunctionBuilderError::UnreachablePhi { value: phi_value }))
    );
}

#[test]
fn phi_operands_are_ordered_and_replaced() {
    let mut phi = IncompletePhi::new();
    assert_eq!(phi.append_operand(Block::from_u32(4), Value::from_u32(1)), None);
    assert_eq!(phi.append_operand(Block::from_u32(1), Value::from_u32(7)), None);
    assert_eq!(phi.append_operand(Block::from_u32(2), Value::from_u32(1)), None);
    assert_eq!(phi.append_operand(Block::from_u32(2), Value::from_u32(3)), Some(Value::from_u32(1)));
    assert_eq!(phi.len(), 3);
    assert_eq!(phi.operand_for(Block::from_u32(4)), Some(Value::from_u32(1)));
    assert_eq!(phi.operand_for(Block::from_u32(3)), None);
    let mut operands = phi.operands();
    assert_eq!(operands.len(), 3);
    assert_eq!(operands.next(), Some((Block::from_u32(1), Value::from_u32(7))));
    assert_eq!(operands.next(), Some((Block::from_u32(2), Value::from_u32(3))));
    assert_eq!(operands.next(), Some((Block::from_u32(4), Value::from_u32(1))));
    assert_eq!(operands.next(), None);
    assert!(phi.has_operands_for(&vec![Block::from_u32(1), Block::from_u32(2), Block::from_u32(4)]));
    assert!(!phi.has_operands_for(&vec![Block::from_u32(1), Block::from_u32(2)]));
    assert!(!phi.has_operands_for(&vec![Block::from_u32(1), Block::from_u32(2), Block::from_u32(5)]));

    assert!(!phi.replace_value(Value::from_u32(8), Value::from_u32(0)));
    assert!(phi.replace_value(Value::from_u32(7), Value::from_u32(1)));
    assert_eq!(phi.operand_for(Block::from_u32(1)), Some(Value::from_u32(1)));
    assert_eq!(phi.operand_for(Block::from_u32(2)), Some(Value::from_u32(3)));
    let copy = phi.clone();
    assert_eq!(copy, phi);
}

#[test]
fn trivial_phi_elimination_is_a_fixed_point() {
    let phi_value = Value::from_u32(5);
    let same = Value::from_u32(2);
    let mut phi = IncompletePhi::new();
    phi.append_operand(Block::from_u32(0), same);
    phi.append_operand(Block::from_u32(1), phi_value);
    assert_eq!(phi.is_trivial(phi_value), Ok(Some(same)));
    assert!(phi.replace_value(phi_value, same));
    assert_eq!(phi.is_trivial(phi_value), Ok(Some(same)));
    assert!(!phi.replace_value(phi_value, same));
    assert_eq!(phi.is_trivial(phi_value), Ok(Some(same)));
}

#[test]
fn binary_instruction_getters() {
    let lhs = Value::from_u32(1);
    let rhs = Value::from_u32(2);
    let instr = BinaryIntInstr::new(BinaryIntOp::Sub, IntType::I16, lhs, rhs);
    assert_eq!(instr.op(), BinaryIntOp::Sub);
    assert_eq!(instr.ty(), IntType::I16);
    assert_eq!(instr.lhs(), lhs);
    assert_eq!(instr.rhs(), rhs);
}

#[test]
fn instructions_know_their_kind_and_type() {
    let value = Value::from_u32(0);
    let constant = Instruction::Const(ConstInstr::new(Const::Bool(true)));
    let ret = Instruction::Terminal(TerminalInstr::Return(ReturnInstr::new(value)));
    let phi = Instruction::Phi(PhiInstr::new(Type::Ptr));
    assert!(!constant.is_terminal() && !constant.is_phi());
    assert!(ret.is_terminal() && !ret.is_phi());
    assert!(!phi.is_terminal() && phi.is_phi());
    assert_eq!(constant.ty(), Some(Type::Bool));
    assert_eq!(ret.ty(), None);
    assert_eq!(phi.ty(), Some(Type::Ptr));
    let add = Instruction::Int(IntInstr::Binary(BinaryIntInstr::new(
        BinaryIntOp::Add,
        IntType::I64,
        value,
        value,
    )));
    assert_eq!(add.ty(), Some(Type::Int(IntType::I64)));
    let call = Instruction::Call(CallInstr::new(Func::from_u32(0), vec![value]));
    assert_eq!(call.ty(), None);
}

#[test]
fn instructions_visit_and_replace_their_values() {
    let a = Value::from_u32(1);
    let b = Value::from_u32(2);
    let c = Value::from_u32(3);
    let mut select = Instruction::Select(SelectInstr::new(a, Type::Int(IntType::I32), b, a));
    // The visitor asks to stop at `b`: not every value is visited.
    assert!(!select.visit_values(&|value| value != b));
    assert!(select.visit_values(&|value| value != c));
    assert!(select.replace_value(a, c));
    assert!(!select.replace_value(a, c));
    // No use of `a` is left.
    assert!(select.visit_values(&|value| value != a));
    match &select {
        Instruction::Select(instr) => {
            assert_eq!(instr.condition, c);
            assert_eq!(instr.value_true, b);
            assert_eq!(instr.value_false, c);
        }
        other => panic!("expected a selection, found {:?}", other),
    }

    let mut call = Instruction::Call(CallInstr::new(Func::from_u32(0), vec![a, b, a]));
    assert!(call.replace_value(a, c));
    assert_eq!(call, Instruction::Call(CallInstr::new(Func::from_u32(0), vec![c, b, c])));
    assert!(call.visit_values(&|value| value != a));

    let mut branch = Instruction::Terminal(TerminalInstr::Br(BranchInstr::new(Block::from_u32(0))));
    assert!(!branch.replace_value(a, c));
    assert!(branch.visit_values(&|_| false));

    let mut ite = Instruction::Terminal(TerminalInstr::Ite(IfThenElseInstr::new(
        a,
        Block::from_u32(1),
        Block::from_u32(2),
    )));
    assert!(ite.replace_value(a, b));
    assert!(!ite.visit_values(&|value| value != b));

    let mut phi = PhiInstr::new(Type::Bool);
    phi.append_operand(Block::from_u32(0), a);
    phi.append_operand(Block::from_u32(1), b);
    let mut phi = Instruction::Phi(phi);
    assert!(phi.replace_value(b, a));
    assert!(phi.visit_values(&|value| value == a));
}

#[test]
fn basic_block_gives_its_terminal() {
    let value = Value::from_u32(0);
    let mut block = BasicBlock::new(vec![
        Instruction::Const(ConstInstr::new(Const::Bool(false))),
        Instruction::Terminal(TerminalInstr::Return(ReturnInstr::new(value))),
    ]);
    assert_eq!(block.ops().len(), 2);
    assert_eq!(block.terminal(), &TerminalInstr::Return(ReturnInstr::new(value)));
    *block.terminal_mut() = TerminalInstr::Trap;
    assert_eq!(block.terminal(), &TerminalInstr::Trap);
    block.ops_mut()[0] = Instruction::Const(ConstInstr::new(Const::Bool(true)));
    assert_eq!(block.ops()[0], Instruction::Const(ConstInstr::new(Const::Bool(true))));
}

#[test]
fn primitives_have_widths_and_bits() {
    assert_eq!(Type::Bool.bit_width(), 1);
    assert_eq!(Type::Ptr.bit_width(), 32);
    assert_eq!(Type::Int(IntType::I8).bit_width(), 8);
    assert_eq!(IntType::I16.bit_width(), 16);
    assert_eq!(IntType::I32.bit_width(), 32);
    assert_eq!(IntType::I64.bit_width(), 64);
    assert_eq!(FloatType::F32.bit_width(), 32);
    assert_eq!(Type::Float(FloatType::F64).bit_width(), 64);
    assert_eq!(Type::Bool.alignment(), 0);
    assert_eq!(Type::Ptr.alignment(), 2);
    assert_eq!(IntType::I8.alignment(), 0);
    assert_eq!(IntType::I16.alignment(), 1);
    assert_eq!(Type::Int(IntType::I32).alignment(), 2);
    assert_eq!(Type::Float(FloatType::F32).alignment(), 2);
    assert_eq!(IntType::I64.alignment(), 3);
    assert_eq!(FloatType::F64.alignment(), 3);

    assert_eq!(IntConst::I8(-1).into_bits64(), 0xFF);
    assert_eq!(IntConst::I16(-2).into_bits64(), 0xFFFE);
    assert_eq!(IntConst::I32(i32::MIN).into_bits64(), 0x8000_0000);
    assert_eq!(IntConst::I64(-1).into_bits64(), u64::MAX);
    assert_eq!(IntConst::I32(42).into_bits64(), 42);
    assert_eq!(Const::Bool(true).into_bits64(), 1);
    assert_eq!(Const::Bool(false).into_bits64(), 0);
    assert_eq!(Const::Ptr(0xDEAD_BEEF).into_bits64(), 0xDEAD_BEEF);
    assert_eq!(FloatConst::F32(F32::from_bits(0x3F80_0000)).into_bits64(), 0x3F80_0000);
    assert_eq!(Const::Float(FloatConst::F64(F64::from_bits(1 << 63))).into_bits64(), 1 << 63);
    assert_eq!(F32::from_bits(5).bits(), 5);

    assert_eq!(IntConst::I8(0).ty(), Type::Int(IntType::I8));
    assert_eq!(Const::Int(IntConst::I64(0)).ty(), Type::Int(IntType::I64));
    assert_eq!(FloatConst::F32(F32::from_bits(0)).ty(), Type::Float(FloatType::F32));
    assert_eq!(Const::Float(FloatConst::F64(F64::from_bits(0))).ty(), Type::Float(FloatType::F64));
    assert_eq!(Const::Bool(true).ty(), Type::Bool);
    assert_eq!(Const::Ptr(0).ty(), Type::Ptr);
    assert_eq!(Type::from(IntType::I16), Type::Int(IntType::I16));
    assert_eq!(Const::from(IntConst::I8(3)), Const::Int(IntConst::I8(3)));
}
