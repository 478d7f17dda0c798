//! Tasks, the ready queue, and the state of all tasks of the machine.

pub mod control_block;
pub mod fairness;
pub mod family;
pub mod kernel;
pub mod preserve;
pub mod manager;
pub mod model;
