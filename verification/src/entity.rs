//! Index based entity storage: typed handles, the primary arena and the
//! dense and sparse secondary maps keyed by handles.

pub mod arena;
pub mod index;
pub mod map;
pub mod vec;

pub use self::arena::EntityArena;
pub use self::index::{Idx, Index32, RawIdx};
pub use self::map::{ComponentMap, Entry, Iter, OccupiedEntry, VacantEntry};
pub use self::vec::ComponentVec;
