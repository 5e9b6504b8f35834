//! A bump-pointer arena allocator over a fixed address range, together with
//! the recursive routine used to exercise stack depth.
//!
//! Every executable function carries a contract stated over a mathematical
//! model of the arena, and the laws that relate successive operations are
//! proved as public lemmas.

pub mod align;
pub mod arena;
pub mod bump;
pub mod fibonacci;
pub mod trace;
