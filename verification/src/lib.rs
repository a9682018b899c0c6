//! Process and task management core of a small single-core kernel: the task
//! control block and its lifecycle, a priority ready queue, the dispatch
//! decisions, the process-control system calls, an address-space model and the
//! synchronisation primitives with their deadlock check.
//!
//! All kernel state lives in one explicitly constructed [`task::TaskManager`]
//! that is handed to every operation.

pub mod config;
pub mod mm;
pub mod sync;
pub mod syscall;
pub mod task;
