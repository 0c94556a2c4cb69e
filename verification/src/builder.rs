//! Building functions in SSA form on the fly.

pub mod context;
pub mod finalize;
pub mod frame;
pub mod function;
pub mod instruction;
pub mod laws;
pub mod model;
pub mod ssa;
pub mod state;
pub mod variable;

pub use self::context::{BlockData, FunctionBuilderContext};
pub use self::function::{Function, FunctionBuilder};
pub use self::instruction::FunctionInstrBuilder;
pub use self::model::{BlockModel, FunctionModel, ValueAssoc};
pub use self::variable::{VariableDefinitions, VariableDefs, VariableTable, VariableTranslator};
