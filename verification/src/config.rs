//! Constants of the kernel.

use vstd::prelude::*;

verus! {

/// Size of a user stack in bytes.
pub const USER_STACK_SIZE: usize = 4096 * 8;

/// Size of a page in bytes.
pub const PAGE_SIZE: usize = 0x1000;

/// Number of address bits inside a page.
pub const PAGE_SIZE_BITS: usize = 0xc;

/// Number of distinct system call numbers that are counted per task.
pub const MAX_SYSCALL_NUM: usize = 500;

/// Number of the highest virtual page, which holds the trampoline.
pub const TRAMPOLINE_PAGE: usize = usize::MAX / PAGE_SIZE;

/// Virtual address of the trampoline page.
pub const TRAMPOLINE: usize = usize::MAX - PAGE_SIZE + 1;

/// Virtual address of the page that holds a task's trap context.
pub const TRAP_CONTEXT_BASE: usize = TRAMPOLINE - PAGE_SIZE;

/// The stride that a task of priority 1 would advance by in one quantum.
pub const BIG_STRIDE: usize = 0x10_0000;

/// Priority of a task that never asked for one.
pub const DEFAULT_PRIORITY: usize = 16;

/// Page number of the page that holds `addr`.
pub open spec fn page_of(addr: int) -> int {
    addr / (PAGE_SIZE as int)
}

/// Whether `addr` is the first byte of a page.
pub open spec fn page_aligned(addr: int) -> bool {
    addr % (PAGE_SIZE as int) == 0
}

/// Computes whether `addr` is the first byte of a page.
pub fn is_page_aligned(addr: usize) -> (aligned: bool)
    ensures
        aligned == page_aligned(addr as int),
{
    addr % PAGE_SIZE == 0
}

} // verus!
