//! Constants shared by the whole kernel core.
use vstd::prelude::*;

verus! {

/// Size of one page of virtual memory, in bytes.
pub const PAGE_SIZE: usize = 4096;

/// Number of distinct system-call ids whose invocations are counted per task.
pub const MAX_SYSCALL_NUM: usize = 500;

/// Largest number of process ids ever handed out by one task manager.
pub const MAX_TASKS: usize = 0x7fff_ffff;

} // verus!
