use runwell::entity::Index32;
use runwell::instruction::{BinaryIntInstr, BinaryIntOp, IncompletePhi, Instr};
use runwell::primitive::{Block, Func, FuncType, IntType, Mem, Table, Type, Value, Variable};

#[test]
fn handles_render_with_their_index() {
    assert_eq!(Block::from_u32(0).to_string(), "bb0");
    assert_eq!(Block::from_u32(17).to_string(), "bb17");
    assert_eq!(Value::from_u32(3).to_string(), "v3");
    assert_eq!(Value::from_u32(4294967294).to_string(), "v4294967294");
    assert_eq!(Variable::from_u32(10).to_string(), "var(10)");
    assert_eq!(Instr::from_u32(905).to_string(), "instr(905)");
    assert_eq!(Func::from_u32(2).to_string(), "func2");
    assert_eq!(FuncType::from_u32(2).to_string(), "func_type(2)");
    assert_eq!(Mem::from_u32(0).to_string(), "mem(0)");
    assert_eq!(Table::from_u32(100).to_string(), "table(100)");
}

#[test]
fn binary_instructions_render() {
    let names = [
        (BinaryIntOp::Add, "iadd"),
        (BinaryIntOp::Sub, "isub"),
        (BinaryIntOp::Mul, "imul"),
        (BinaryIntOp::Sdiv, "sdiv"),
        (BinaryIntOp::Udiv, "udiv"),
        (BinaryIntOp::Srem, "srem"),
        (BinaryIntOp::Urem, "urem"),
        (BinaryIntOp::And, "iand"),
        (BinaryIntOp::Or, "ior"),
        (BinaryIntOp::Xor, "ixor"),
    ];
    for (op, name) in names {
        assert_eq!(op.as_str(), name);
    }
    let instr =
        BinaryIntInstr::new(BinaryIntOp::Add, IntType::I32, Value::from_u32(1), Value::from_u32(2));
    assert_eq!(instr.to_string(), "iadd<i32> v1 v2");
    let instr =
        BinaryIntInstr::new(BinaryIntOp::Urem, IntType::I8, Value::from_u32(30), Value::from_u32(4));
    assert_eq!(instr.to_string(), "urem<i8> v30 v4");
    assert_eq!(Type::Bool.as_str(), "bool");
    assert_eq!(Type::Int(IntType::I64).as_str(), "i64");
}

#[test]
fn phi_renders_its_operands_by_block() {
    let mut phi = IncompletePhi::new();
    assert_eq!(phi.to_string(), "ϕ [ ]");
    phi.append_operand(Block::from_u32(1), Value::from_u32(7));
    assert_eq!(phi.to_string(), "ϕ [ bb1 -> v7 ]");
    phi.append_operand(Block::from_u32(0), Value::from_u32(3));
    assert_eq!(phi.to_string(), "ϕ [ bb0 -> v3, bb1 -> v7 ]");
}

#[test]
fn binary_float_instructions_render() {
    let instr = runwell::instruction::BinaryFloatInstr::new(
        runwell::instruction::BinaryFloatOp::Add,
        runwell::primitive::FloatType::F32,
        Value::from_u32(1),
        Value::from_u32(2),
    );
    assert_eq!(instr.to_string(), "fadd type f32, lhs v1, rhs v2");
    let instr = runwell::instruction::BinaryFloatInstr::new(
        runwell::instruction::BinaryFloatOp::Copysign,
        runwell::primitive::FloatType::F64,
        Value::from_u32(30),
        Value::from_u32(4),
    );
    assert_eq!(instr.to_string(), "copysign type f64, lhs v30, rhs v4");
}
