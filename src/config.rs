use vstd::prelude::*;

verus! {

/// Size in bytes of one page and of one physical frame.
pub const PAGE_SIZE: usize = 4096;

/// Number of slots in a task's syscall-count table.
pub const MAX_SYSCALL_NUM: usize = 500;

} // verus!
