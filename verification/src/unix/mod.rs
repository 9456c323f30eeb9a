//! What Linux and macOS have in common.

pub mod mmap;
pub mod arena;
pub mod builder;
pub mod tube;
pub mod tube_laws;
pub mod laws;
pub mod call_laws;
pub mod tube_call_laws;
