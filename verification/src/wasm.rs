//! Translation of WebAssembly function bodies into SSA functions.

pub mod control;
pub mod operator;
pub mod stack;
pub mod translate;
pub mod values;

pub use self::operator::{BlockType, Operator, WasmType};
pub use self::stack::{ValueEntry, ValueStack};
pub use self::translate::{
    translate_wasm,
    ControlFrame,
    ControlKind,
    FunctionTranslator,
    ValueNumbering,
};
pub use crate::builder::function::Function;
