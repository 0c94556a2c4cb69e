use runwell::entity::Index32;
use runwell::instruction::{
    BinaryIntInstr,
    BinaryIntOp,
    BranchInstr,
    CompareIntInstr,
    CompareIntOp,
    ConstInstr,
    IfThenElseInstr,
    Instruction,
    IntInstr,
    PhiInstr,
    ReinterpretInstr,
    ReturnInstr,
    SelectInstr,
    TerminalInstr,
    UnaryIntInstr,
    UnaryIntOp,
};
use runwell::interpreter::{
    compute_binary_int,
    compute_compare_int,
    compute_count_ones,
    InterpretInstr,
    InterpretationContext,
    InterpretationError,
};
use runwell::primitive::{Block, Const, FloatType, IntConst, IntType, Type, Value};

#[test]
fn binary_operations_wrap_around() {
    assert_eq!(compute_binary_int(BinaryIntOp::Add, IntType::I8, 200, 100), 44);
    assert_eq!(compute_binary_int(BinaryIntOp::Add, IntType::I32, u32::MAX as u64, 1), 0);
    assert_eq!(compute_binary_int(BinaryIntOp::Add, IntType::I64, u64::MAX, 2), 1);
    assert_eq!(compute_binary_int(BinaryIntOp::Add, IntType::I16, 0xABCD_0001, 0x1234_0002), 3);
    assert_eq!(compute_binary_int(BinaryIntOp::Sub, IntType::I8, 3, 5), 254);
    assert_eq!(compute_binary_int(BinaryIntOp::Sub, IntType::I64, 0, 1), u64::MAX);
    assert_eq!(compute_binary_int(BinaryIntOp::Mul, IntType::I16, 0x100, 0x100), 0);
    assert_eq!(compute_binary_int(BinaryIntOp::Mul, IntType::I32, 0x1_0000, 0x1_0001), 0x1_0000);
    assert_eq!(compute_binary_int(BinaryIntOp::Mul, IntType::I64, u64::MAX, u64::MAX), 1);
    assert_eq!(compute_binary_int(BinaryIntOp::Udiv, IntType::I8, 0xFF, 2), 127);
    assert_eq!(compute_binary_int(BinaryIntOp::Urem, IntType::I8, 0xFF, 2), 1);
    assert_eq!(compute_binary_int(BinaryIntOp::Udiv, IntType::I64, u64::MAX, u64::MAX), 1);
    // -1 / 2 rounds towards zero; -7 % 2 has the sign of the dividend.
    assert_eq!(compute_binary_int(BinaryIntOp::Sdiv, IntType::I8, 0xFF, 2), 0);
    assert_eq!(compute_binary_int(BinaryIntOp::Sdiv, IntType::I8, 0xF9, 2), 0xFD);
    assert_eq!(compute_binary_int(BinaryIntOp::Srem, IntType::I8, 0xF9, 2), 0xFF);
    assert_eq!(compute_binary_int(BinaryIntOp::Srem, IntType::I32, 7, 0xFFFF_FFFE), 1);
    assert_eq!(compute_binary_int(BinaryIntOp::Sdiv, IntType::I32, 7, 0xFFFF_FFFE), 0xFFFF_FFFD);
    // The least number divided by -1 wraps around to itself.
    assert_eq!(compute_binary_int(BinaryIntOp::Sdiv, IntType::I32, 0x8000_0000, 0xFFFF_FFFF), 0x8000_0000);
    assert_eq!(compute_binary_int(BinaryIntOp::Srem, IntType::I32, 0x8000_0000, 0xFFFF_FFFF), 0);
    assert_eq!(compute_binary_int(BinaryIntOp::Sdiv, IntType::I64, 1 << 63, u64::MAX), 1 << 63);
    assert_eq!(compute_binary_int(BinaryIntOp::And, IntType::I8, 0x1F0, 0x3C), 0x30);
    assert_eq!(compute_binary_int(BinaryIntOp::Or, IntType::I16, 0xF0, 0x1_000F), 0xFF);
    assert_eq!(compute_binary_int(BinaryIntOp::Xor, IntType::I64, u64::MAX, 1), u64::MAX - 1);
}

#[test]
fn comparisons_read_signs() {
    assert_eq!(compute_compare_int(CompareIntOp::Eq, IntType::I8, 0x101, 1), 1);
    assert_eq!(compute_compare_int(CompareIntOp::Ne, IntType::I8, 0x101, 1), 0);
    assert_eq!(compute_compare_int(CompareIntOp::Eq, IntType::I16, 0x101, 1), 0);
    assert_eq!(compute_compare_int(CompareIntOp::Ult, IntType::I32, 1, 0xFFFF_FFFF), 1);
    assert_eq!(compute_compare_int(CompareIntOp::Slt, IntType::I32, 1, 0xFFFF_FFFF), 0);
    assert_eq!(compute_compare_int(CompareIntOp::Sgt, IntType::I32, 1, 0xFFFF_FFFF), 1);
    assert_eq!(compute_compare_int(CompareIntOp::Sle, IntType::I64, u64::MAX, 0), 1);
    assert_eq!(compute_compare_int(CompareIntOp::Ule, IntType::I64, u64::MAX, 0), 0);
    assert_eq!(compute_compare_int(CompareIntOp::Sge, IntType::I8, 0x80, 0x7F), 0);
    assert_eq!(compute_compare_int(CompareIntOp::Uge, IntType::I8, 0x80, 0x7F), 1);
    assert_eq!(compute_compare_int(CompareIntOp::Ugt, IntType::I16, 5, 5), 0);
    assert_eq!(compute_compare_int(CompareIntOp::Uge, IntType::I16, 5, 5), 1);
    assert_eq!(compute_compare_int(CompareIntOp::Sle, IntType::I16, 5, 5), 1);
    assert_eq!(compute_compare_int(CompareIntOp::Slt, IntType::I16, 5, 5), 0);
}

#[test]
fn ones_are_counted() {
    assert_eq!(compute_count_ones(0), 0);
    assert_eq!(compute_count_ones(0b1011), 3);
    assert_eq!(compute_count_ones(u64::MAX), 64);
    assert_eq!(compute_count_ones(1 << 63), 1);
}

#[test]
fn instructions_write_registers() {
    let entry = Block::from_u32(0);
    let a = Value::from_u32(0);
    let b = Value::from_u32(1);
    let c = Value::from_u32(2);
    let mut ctx = InterpretationContext::new(entry, 1);
    assert_eq!(ctx.read_register(a), 0);
    assert_eq!(ctx.current_block(), entry);
    assert_eq!(ctx.last_block(), None);

    Instruction::Const(ConstInstr::new(Const::Int(IntConst::I32(-2)))).interpret(Some(a), &mut ctx).unwrap();
    assert_eq!(ctx.read_register(a), 0xFFFF_FFFE);
    ConstInstr::new(Const::Int(IntConst::I32(5))).interpret_instr(Some(b), &mut ctx).unwrap();

    let add = BinaryIntInstr::new(BinaryIntOp::Add, IntType::I32, a, b);
    Instruction::Int(IntInstr::Binary(add)).interpret(Some(c), &mut ctx).unwrap();
    assert_eq!(ctx.read_register(c), 3);

    let less = CompareIntInstr::new(CompareIntOp::Slt, IntType::I32, a, b);
    less.interpret_instr(Some(c), &mut ctx).unwrap();
    assert_eq!(ctx.read_register(c), 1);
    let less = CompareIntInstr::new(CompareIntOp::Ult, IntType::I32, a, b);
    IntInstr::Compare(less).interpret_instr(Some(c), &mut ctx).unwrap();
    assert_eq!(ctx.read_register(c), 0);

    // The condition is zero: the second value is selected.
    SelectInstr::new(c, Type::Int(IntType::I32), a, b).interpret_instr(Some(c), &mut ctx).unwrap();
    assert_eq!(ctx.read_register(c), 5);
    SelectInstr::new(b, Type::Int(IntType::I32), a, b).interpret_instr(Some(c), &mut ctx).unwrap();
    assert_eq!(ctx.read_register(c), 0xFFFF_FFFE);

    ReinterpretInstr::new(Type::Int(IntType::I32), Type::Float(FloatType::F32), b, )
        .interpret_instr(Some(c), &mut ctx)
        .unwrap();
    assert_eq!(ctx.read_register(c), 5);

    UnaryIntInstr::new(UnaryIntOp::PopCount, IntType::I32, b).interpret_instr(Some(c), &mut ctx).unwrap();
    assert_eq!(ctx.read_register(c), 2);
    UnaryIntInstr::new(UnaryIntOp::TrailingZeros, IntType::I32, a)
        .interpret_instr(Some(c), &mut ctx)
        .unwrap();
    assert_eq!(ctx.read_register(c), 1);
    UnaryIntInstr::new(UnaryIntOp::LeadingZeros, IntType::I32, b)
        .interpret_instr(Some(c), &mut ctx)
        .unwrap();
    assert_eq!(ctx.read_register(c), 61);
}

#[test]
fn terminals_pass_control() {
    let entry = Block::from_u32(0);
    let first = Block::from_u32(1);
    let second = Block::from_u32(2);
    let a = Value::from_u32(0);
    let b = Value::from_u32(1);
    let mut ctx = InterpretationContext::new(entry, 1);
    ctx.write_register(b, 9);

    // The condition is zero: control passes to the second target.
    IfThenElseInstr::new(a, first, second).interpret_instr(None, &mut ctx).unwrap();
    assert_eq!(ctx.current_block(), second);
    assert_eq!(ctx.last_block(), Some(entry));
    TerminalInstr::Br(BranchInstr::new(first)).interpret_instr(None, &mut ctx).unwrap();
    assert_eq!(ctx.current_block(), first);
    assert_eq!(ctx.last_block(), Some(second));

    // The phi takes the operand that flows from the last block.
    let mut phi = PhiInstr::new(Type::Int(IntType::I32));
    phi.append_operand(entry, a);
    phi.append_operand(second, b);
    phi.interpret_instr(Some(a), &mut ctx).unwrap();
    assert_eq!(ctx.read_register(a), 9);

    IfThenElseInstr::new(a, second, first).interpret_instr(None, &mut ctx).unwrap();
    assert_eq!(ctx.current_block(), second);

    assert!(ctx.return_value().is_none());
    assert_eq!(
        ReturnInstr::nothing().interpret_instr(None, &mut ctx),
        Err(InterpretationError::UnmatchingReturnValues { expected: 1, found: 0 })
    );
    assert!(ctx.return_value().is_none());
    Instruction::Terminal(TerminalInstr::Return(ReturnInstr::new(b))).interpret(None, &mut ctx).unwrap();
    assert_eq!(ctx.return_value(), Some(&vec![9]));
    assert_eq!(
        ctx.set_return_value(&[1, 2]),
        Err(InterpretationError::UnmatchingReturnValues { expected: 1, found: 2 })
    );

    assert!(!ctx.has_trapped());
    TerminalInstr::Trap.interpret_instr(None, &mut ctx).unwrap();
    assert!(ctx.has_trapped());
}
