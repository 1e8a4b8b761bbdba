//! A task's syscall boundary: virtual-memory mapping, user-pointer
//! translation, per-task usage statistics and the syscall entry points,
//! each acting on an explicitly passed task context.
pub mod config;
pub mod frame;
pub mod memory;
pub mod process;
pub mod task_info;
pub mod time;
pub mod translate;
pub mod wire;

pub use config::{MAX_SYSCALL_NUM, PAGE_SIZE};
pub use frame::FrameAllocator;
pub use memory::{AddressSpace, MemoryMapping, MmapError, MunmapError, PageTableEntry};
pub use process::{sys_exit, sys_get_time, sys_mmap, sys_munmap, sys_set_priority, sys_task_info, sys_yield, syscall, SyscallAction, Task};
pub use task_info::{SyscallId, TaskInfo, TaskInfoLedger, TaskStatus};
pub use time::{TimeVal, MICROS_PER_SEC};
pub use translate::AccessFault;
