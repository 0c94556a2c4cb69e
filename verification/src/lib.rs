//! Core of a WebAssembly to SSA compiler front-end: typed entity storage,
//! the instruction model, an on-the-fly SSA function builder and a
//! translator from a WebAssembly operator stream to that builder.

pub mod entity;
pub mod primitive;
pub mod error;
pub mod instruction;
pub mod builder;
pub mod interpreter;
pub mod wasm;
pub mod basicblock;
pub mod text;
