//! Process-management core of a single-core, preemptible kernel.
//!
//! A [`task::kernel::Kernel`] holds every task of the machine, the ready
//! queue of the stride scheduler and the task that runs. Tasks ask for its
//! services through [`syscall::syscall`]: to fork, to load another program,
//! to exit and to wait for children, to map and unmap memory, to set their
//! priority. Each task has an address space of its own
//! ([`mm::memory_set::MemorySet`]), and the kernel reaches the memory of a
//! task only through it ([`mm::user`]).
//!
//! What the kernel does is stated over values: [`task::model::KernelView`]
//! is the state of all tasks as a value, with one function for each step
//! that the kernel can take, and an invariant that every step keeps. The
//! laws that follow for the scheduler and for parents and children are
//! proved in [`task::manager`], [`task::fairness`] and [`task::family`].

pub mod config;
pub mod encoding;
pub mod loader;
pub mod mm;
pub mod search;
pub mod syscall;
pub mod task;
