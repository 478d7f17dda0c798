//! Address spaces: the memory regions of a task and the bytes in them.

pub mod area;
pub mod memory_set;
pub mod user;
