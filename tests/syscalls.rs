use os4::{
    syscall, SyscallAction,
    sys_exit, sys_get_time, sys_mmap, sys_munmap, sys_set_priority, sys_task_info, sys_yield, AccessFault,
    SyscallId, Task, TaskInfoLedger, TaskStatus, TimeVal, MAX_SYSCALL_NUM,
};

fn word_at(bytes: &[u8], at: usize) -> u64 {
    let mut w = [0u8; 8];
    w.copy_from_slice(&bytes[at..at + 8]);
    u64::from_le_bytes(w)
}

fn u32_at(bytes: &[u8], at: usize) -> u32 {
    let mut w = [0u8; 4];
    w.copy_from_slice(&bytes[at..at + 4]);
    u32::from_le_bytes(w)
}

fn read_time(task: &Task, at: usize) -> (u64, u64) {
    let b = task.space.read_bytes(at, 16).unwrap();
    (word_at(&b, 0), word_at(&b, 8))
}

#[test]
fn mmap_write_read_then_remap_with_other_mask() {
    let mut task = Task::new(8);
    assert_eq!(sys_mmap(&mut task, 0x1000, 0x2000, 0b011), 0);
    assert_eq!(task.space.write_byte(0x1000 + 0x1500, 0x5a), Ok(()));
    assert_eq!(task.space.read_byte(0x1000 + 0x1500), Ok(0x5a));
    assert_eq!(sys_munmap(&mut task, 0x1000, 0x2000), 0);
    assert_eq!(sys_mmap(&mut task, 0x1000, 0x2000, 0b101), 0);
    assert_eq!(task.space.lookup(1).map(|e| e.perm), Some(0b101));
}

#[test]
fn failed_syscalls_return_minus_one() {
    let mut task = Task::new(8);
    assert_eq!(sys_mmap(&mut task, 0x1001, 0x1000, 0b001), -1);
    assert_eq!(sys_mmap(&mut task, 0x1000, 0x1000, 0), -1);
    assert_eq!(sys_mmap(&mut task, 0x1000, 0x1000, 0b001), 0);
    assert_eq!(sys_mmap(&mut task, 0x1000, 0x1000, 0b001), -1);
    assert_eq!(sys_mmap(&mut task, 0x2000, 0x8000, 0b001), -1);
    assert_eq!(sys_munmap(&mut task, 0x1000, 0x2000), -1);
    assert_eq!(sys_munmap(&mut task, 0x1001, 0x1000), -1);
    assert_eq!(sys_munmap(&mut task, 0x1000, 0x1000), 0);
}

#[test]
fn set_priority_always_fails() {
    assert_eq!(sys_set_priority(16), -1);
    assert_eq!(sys_set_priority(-3), -1);
}

#[test]
fn yield_makes_the_task_ready() {
    let mut task = Task::new(1);
    task.ledger.mark_scheduled(10);
    assert_eq!(task.ledger.current_status(), TaskStatus::Running);
    assert_eq!(sys_yield(&mut task), 0);
    assert_eq!(task.ledger.current_status(), TaskStatus::Ready);
}

#[test]
fn exit_records_the_code() {
    let mut task = Task::new(1);
    sys_exit(&mut task, -7);
    assert_eq!(task.exit_code, Some(-7));
    assert_eq!(task.ledger.current_status(), TaskStatus::Exited);
}

#[test]
fn time_val_splits_microseconds() {
    assert_eq!(TimeVal::from_us(1_500_000), TimeVal { sec: 1, usec: 500_000 });
    assert_eq!(TimeVal::from_us(999_999), TimeVal { sec: 0, usec: 999_999 });
    assert_eq!(TimeVal::from_us(0), TimeVal { sec: 0, usec: 0 });
    let b = TimeVal { sec: 0x0102, usec: 3 }.to_bytes();
    assert_eq!(b.len(), 16);
    assert_eq!(&b[0..3], &[2, 1, 0]);
    assert_eq!(b[8], 3);
}

#[test]
fn get_time_is_non_decreasing() {
    let mut task = Task::new(2);
    assert_eq!(sys_mmap(&mut task, 0x1000, 0x1000, 0b011), 0);
    assert_eq!(sys_get_time(&mut task, 0x1010, 0, 2_999_999), Ok(0));
    let first = read_time(&task, 0x1010);
    assert_eq!(first, (2, 999_999));
    assert_eq!(sys_get_time(&mut task, 0x1010, 0, 3_000_001), Ok(0));
    let second = read_time(&task, 0x1010);
    assert_eq!(second, (3, 1));
    assert!(first <= second);
}

#[test]
fn get_time_faults_outside_writable_pages() {
    let mut task = Task::new(2);
    assert_eq!(sys_get_time(&mut task, 0x1000, 0, 5), Err(AccessFault));
    assert_eq!(sys_mmap(&mut task, 0x1000, 0x1000, 0b001), 0);
    assert_eq!(sys_get_time(&mut task, 0x1000, 0, 5), Err(AccessFault));
    assert_eq!(sys_mmap(&mut task, 0x2000, 0x1000, 0b011), 0);
    assert_eq!(sys_get_time(&mut task, 0x2ff8, 0, 5), Err(AccessFault));
    assert_eq!(task.space.read_byte(0x2ff8), Ok(0));
}

#[test]
fn ledger_counts_each_call() {
    let mut ledger = TaskInfoLedger::new();
    for _ in 0..5 {
        ledger.record_syscall(SyscallId::GetTime);
    }
    ledger.record_syscall(SyscallId::Mmap);
    let a = ledger.snapshot(0);
    let b = ledger.snapshot(0);
    assert_eq!(a.syscall_times[169], 5);
    assert_eq!(a.syscall_times[222], 1);
    assert_eq!(a.syscall_times[93], 0);
    assert_eq!(a.syscall_times, b.syscall_times);
    assert_eq!(ledger.count_of(SyscallId::GetTime), 5);
}

#[test]
fn ledger_elapsed_time_counts_from_first_scheduling() {
    let mut ledger = TaskInfoLedger::new();
    assert_eq!(ledger.snapshot(50).time, 0);
    ledger.mark_scheduled(100);
    ledger.set_status(TaskStatus::Ready);
    ledger.mark_scheduled(130);
    let s = ledger.snapshot(175);
    assert_eq!(s.time, 75);
    assert_eq!(s.status, TaskStatus::Running);
}

#[test]
fn syscall_numbers_round_trip() {
    assert_eq!(SyscallId::TaskInfo.number(), 410);
    assert_eq!(SyscallId::from_number(215), Some(SyscallId::Munmap));
    assert_eq!(SyscallId::from_number(64), None);
    assert_eq!(SyscallId::from_number(SyscallId::Yield.number()), Some(SyscallId::Yield));
}

#[test]
fn task_info_lands_in_task_memory() {
    let mut task = Task::new(2);
    task.ledger.mark_scheduled(1_000);
    task.ledger.record_syscall(SyscallId::Mmap);
    assert_eq!(sys_mmap(&mut task, 0x4000, 0x1000, 0b011), 0);
    task.ledger.record_syscall(SyscallId::TaskInfo);
    assert_eq!(sys_task_info(&mut task, 0x4000, 1_250), Ok(0));
    let size = 4 + 4 * MAX_SYSCALL_NUM + 4 + 8;
    let b = task.space.read_bytes(0x4000, size).unwrap();
    assert_eq!(u32_at(&b, 0), TaskStatus::Running.code());
    assert_eq!(u32_at(&b, 4 + 4 * 222), 1);
    assert_eq!(u32_at(&b, 4 + 4 * 410), 1);
    assert_eq!(u32_at(&b, 4 + 4 * 169), 0);
    assert_eq!(word_at(&b, 4 + 4 * MAX_SYSCALL_NUM + 4), 250);
}

#[test]
fn task_info_faults_when_it_does_not_fit() {
    let mut task = Task::new(2);
    assert_eq!(sys_mmap(&mut task, 0x4000, 0x1000, 0b011), 0);
    assert_eq!(sys_task_info(&mut task, 0x4c00, 0), Err(AccessFault));
    assert_eq!(task.space.read_byte(0x4c00), Ok(0));
}

#[test]
fn dispatch_counts_failed_calls_too() {
    let mut task = Task::new(4);
    assert_eq!(syscall(&mut task, 222, [0x1001, 0x1000, 0b001], 0), SyscallAction::Return(-1));
    assert_eq!(syscall(&mut task, 222, [0x1000, 0x1000, 0b001], 0), SyscallAction::Return(0));
    assert_eq!(syscall(&mut task, 215, [0x1000, 0x2000, 0], 0), SyscallAction::Return(-1));
    assert_eq!(syscall(&mut task, 140, [5, 0, 0], 0), SyscallAction::Return(-1));
    assert_eq!(task.ledger.count_of(SyscallId::Mmap), 2);
    assert_eq!(task.ledger.count_of(SyscallId::Munmap), 1);
    assert_eq!(task.ledger.count_of(SyscallId::SetPriority), 1);
}

#[test]
fn dispatch_ignores_unknown_numbers() {
    let mut task = Task::new(4);
    assert_eq!(syscall(&mut task, 64, [1, 2, 3], 0), SyscallAction::Return(-1));
    assert_eq!(task.ledger.snapshot(0).syscall_times, [0u32; MAX_SYSCALL_NUM]);
}

#[test]
fn dispatch_yield_exit_and_fault() {
    let mut task = Task::new(4);
    assert_eq!(syscall(&mut task, 124, [0, 0, 0], 0), SyscallAction::Yielded);
    assert_eq!(task.ledger.current_status(), TaskStatus::Ready);
    assert_eq!(syscall(&mut task, 169, [0x9000, 0, 0], 0), SyscallAction::Faulted);
    assert_eq!(task.ledger.current_status(), TaskStatus::Exited);
    let mut other = Task::new(4);
    assert_eq!(syscall(&mut other, 93, [3, 0, 0], 0), SyscallAction::Exited);
    assert_eq!(other.exit_code, Some(3));
    assert_eq!(other.ledger.count_of(SyscallId::Exit), 1);
}

#[test]
fn dispatched_task_info_counts_itself() {
    let mut task = Task::new(4);
    task.ledger.mark_scheduled(2);
    assert_eq!(syscall(&mut task, 222, [0x1000, 0x1000, 0b011], 0), SyscallAction::Return(0));
    assert_eq!(syscall(&mut task, 410, [0x1000, 0, 0], 9_000), SyscallAction::Return(0));
    let b = task.space.read_bytes(0x1000, 4 + 4 * MAX_SYSCALL_NUM + 12).unwrap();
    assert_eq!(u32_at(&b, 4 + 4 * 410), 1);
    assert_eq!(u32_at(&b, 4 + 4 * 222), 1);
    assert_eq!(word_at(&b, 4 + 4 * MAX_SYSCALL_NUM + 4), 7);
}
