//! Memory mappings and message tubes, for Linux and macOS.

pub mod address_space;
pub mod align;
pub mod linux;
pub mod macos;
pub mod operation;
pub mod protection;
pub mod syscall;
pub mod tube;
pub mod unix;
pub mod wire;
