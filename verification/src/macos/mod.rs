//! How macOS does it.

pub mod mmap;
pub mod laws;
pub mod tube;
pub mod call_laws;
