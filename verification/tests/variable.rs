use runwell::builder::VariableTranslator;
use runwell::entity::Index32;
use runwell::error::{FunctionBuilderError, IrError, VariableAccess};
use runwell::primitive::{Block, FloatType, IntType, Type, Value, Variable};

fn integer(ty: IntType) -> Type {
    Type::Int(ty)
}

#[test]
fn declarations_are_found_by_index() {
    let mut vars = VariableTranslator::new();
    assert_eq!(vars.len_vars(), 0);
    assert!(!vars.is_declared(Variable::from_u32(0)));
    assert_eq!(vars.declare_vars(3, integer(IntType::I32)), Ok(()));
    assert_eq!(vars.declare_vars(0, integer(IntType::I8)), Ok(()));
    assert_eq!(vars.declare_vars(1, Type::Bool), Ok(()));
    assert_eq!(vars.declare_vars(2, Type::Float(FloatType::F64)), Ok(()));
    assert_eq!(vars.len_vars(), 6);
    let expected = [
        integer(IntType::I32),
        integer(IntType::I32),
        integer(IntType::I32),
        Type::Bool,
        Type::Float(FloatType::F64),
        Type::Float(FloatType::F64),
    ];
    for (index, ty) in expected.iter().enumerate() {
        let var = Variable::from_u32(index as u32);
        assert!(vars.is_declared(var));
        assert_eq!(vars.declared_type(var), Some(*ty));
    }
    assert_eq!(vars.declared_type(Variable::from_u32(6)), None);
    assert_eq!(vars.ensure_declared(Variable::from_u32(5), VariableAccess::Read), Ok(()));
    assert_eq!(
        vars.ensure_declared(Variable::from_u32(6), VariableAccess::Read),
        Err(IrError::FunctionBuilder(FunctionBuilderError::MissingDeclarationForVariable {
            variable: Variable::from_u32(6),
            access: VariableAccess::Read,
        }))
    );
}

#[test]
fn too_many_declarations_are_refused() {
    let mut vars = VariableTranslator::new();
    assert_eq!(vars.declare_vars(0x7FFF_FFFF, Type::Bool), Ok(()));
    assert_eq!(
        vars.declare_vars(1, Type::Bool),
        Err(IrError::FunctionBuilder(FunctionBuilderError::TooManyVariableDeclarations))
    );
    assert_eq!(vars.len_vars(), 0x7FFF_FFFF);
    assert_eq!(vars.declared_type(Variable::from_u32(0x7FFF_FFFE)), Some(Type::Bool));
    let mut vars = VariableTranslator::new();
    assert_eq!(
        vars.declare_vars(u32::MAX, Type::Bool),
        Err(IrError::FunctionBuilder(FunctionBuilderError::TooManyVariableDeclarations))
    );
    assert_eq!(vars.len_vars(), 0);
}

#[test]
fn writes_are_checked_and_recorded() {
    let mut vars = VariableTranslator::new();
    vars.declare_vars(2, integer(IntType::I32)).unwrap();
    let var = Variable::from_u32(1);
    let block = Block::from_u32(0);
    let other = Block::from_u32(3);
    let value = Value::from_u32(9);

    assert_eq!(
        vars.read_var(var).err(),
        Some(IrError::FunctionBuilder(FunctionBuilderError::ReadBeforeWriteVariable {
            variable: var
        }))
    );
    assert_eq!(
        vars.read_var(Variable::from_u32(2)).err(),
        Some(IrError::FunctionBuilder(FunctionBuilderError::MissingDeclarationForVariable {
            variable: Variable::from_u32(2),
            access: VariableAccess::Read,
        }))
    );
    assert_eq!(
        vars.write_var(Variable::from_u32(2), value, block, |_| integer(IntType::I32)),
        Err(IrError::FunctionBuilder(FunctionBuilderError::MissingDeclarationForVariable {
            variable: Variable::from_u32(2),
            access: VariableAccess::Write(value),
        }))
    );
    assert_eq!(
        vars.write_var(var, value, block, |_| integer(IntType::I64)),
        Err(IrError::FunctionBuilder(FunctionBuilderError::UnmatchingVariableType {
            variable: var,
            value,
            declared: integer(IntType::I32),
            actual: integer(IntType::I64),
        }))
    );
    assert_eq!(vars.definition(var, block), None);

    // The first write is recorded just as every later one.
    assert_eq!(vars.write_var(var, value, block, |_| integer(IntType::I32)), Ok(()));
    assert_eq!(vars.definition(var, block), Some(value));
    assert_eq!(vars.definition(var, other), None);
    assert_eq!(vars.definition(Variable::from_u32(0), block), None);
    let defs = vars.read_var(var).unwrap();
    assert_eq!(defs.for_block(block), Some(value));
    assert_eq!(defs.for_block(other), None);

    // Writing the same value twice leaves the same definitions.
    assert_eq!(vars.write_var(var, value, block, |_| integer(IntType::I32)), Ok(()));
    assert_eq!(vars.definition(var, block), Some(value));
    assert_eq!(vars.read_var(var).unwrap().for_block(other), None);

    let newer = Value::from_u32(10);
    assert_eq!(vars.write_var(var, newer, other, |_| integer(IntType::I32)), Ok(()));
    assert_eq!(vars.write_var(var, newer, block, |_| integer(IntType::I32)), Ok(()));
    assert_eq!(vars.definition(var, block), Some(newer));

    vars.write_var(Variable::from_u32(0), value, block, |_| integer(IntType::I32)).unwrap();
    vars.replace_value(newer, value);
    assert_eq!(vars.definition(var, block), Some(value));
    assert_eq!(vars.definition(var, other), Some(value));
    assert_eq!(vars.definition(Variable::from_u32(0), block), Some(value));
}

#[test]
fn types_match_or_are_reported() {
    let var = Variable::from_u32(0);
    let value = Value::from_u32(1);
    assert_eq!(VariableTranslator::ensure_types_match(var, value, Type::Bool, Type::Bool), Ok(()));
    assert_eq!(
        VariableTranslator::ensure_types_match(var, value, Type::Bool, Type::Ptr),
        Err(IrError::FunctionBuilder(FunctionBuilderError::UnmatchingVariableType {
            variable: var,
            value,
            declared: Type::Bool,
            actual: Type::Ptr,
        }))
    );
}
