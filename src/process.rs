use vstd::prelude::*;
use crate::memory::AddressSpace;
use crate::task_info::{counts_after, elapsed, task_info_bytes, SyscallId, TaskInfoLedger, TaskStatus};
use crate::time::{time_val_bytes, TimeVal};
use crate::translate::AccessFault;

verus! {

/// The running task, as the syscalls see it: its address space, its
/// statistics, and the code it exited with, once it has.
pub struct Task {
    pub space: AddressSpace,
    pub ledger: TaskInfoLedger,
    pub exit_code: Option<i32>,
}

impl Task {
    pub open spec fn wf(&self) -> bool {
        self.space.wf()
    }

    /// A ready task with an empty address space over `frames` free frames.
    pub fn new(frames: usize) -> (r: Task)
        ensures
            r.wf(),
            r.space.pages() == Map::<usize, crate::memory::PageTableEntry>::empty(),
            r.space.free_frames() == frames,
            r.ledger.status() == TaskStatus::Ready,
            r.ledger.counts() == Seq::new(crate::config::MAX_SYSCALL_NUM as nat, |i: int| 0u32),
            r.ledger.first_scheduled() is None,
            r.exit_code is None,
    {
        Task { space: AddressSpace::new(frames), ledger: TaskInfoLedger::new(), exit_code: None }
    }
}

/// Ends the task with `exit_code`; the caller then hands control to the
/// scheduler and never returns to the task.
pub fn sys_exit(task: &mut Task, exit_code: i32)
    ensures
        final(task).exit_code == Some(exit_code),
        final(task).ledger.status() == TaskStatus::Exited,
        final(task).ledger.counts() == old(task).ledger.counts(),
        final(task).space == old(task).space,
{
    task.ledger.set_status(TaskStatus::Exited);
    task.exit_code = Some(exit_code);
}

/// Gives up the processor: the task becomes ready, and the caller then
/// hands control to the scheduler. Returns 0.
pub fn sys_yield(task: &mut Task) -> (r: isize)
    ensures
        r == 0,
        final(task).ledger.status() == TaskStatus::Ready,
        final(task).ledger.counts() == old(task).ledger.counts(),
        final(task).space == old(task).space,
        final(task).exit_code == old(task).exit_code,
{
    task.ledger.set_status(TaskStatus::Ready);
    0
}

/// Writes the time `now_us` microseconds after the clock's origin to the
/// `TimeVal` at task address `ts` and returns 0; faults, with nothing
/// changed, unless the whole `TimeVal` lies in writable pages.
pub fn sys_get_time(task: &mut Task, ts: usize, _tz: usize, now_us: usize) -> (r: Result<isize, AccessFault>)
    requires
        old(task).wf(),
    ensures
        final(task).wf(),
        final(task).ledger == old(task).ledger,
        final(task).exit_code == old(task).exit_code,
        r is Ok <==> old(task).space.range_writable(ts as int, time_val_bytes(TimeVal::spec_from_us(now_us)).len() as int),
        r is Ok ==> r == Ok::<isize, AccessFault>(0) && old(task).space.written_into(
            final(task).space,
            ts as int,
            time_val_bytes(TimeVal::spec_from_us(now_us)),
        ),
        r is Err ==> *final(task) == *old(task),
{
    let bytes = TimeVal::from_us(now_us).to_bytes();
    match task.space.write_bytes(ts, &bytes) {
        Ok(()) => Ok(0),
        Err(f) => Err(f),
    }
}

/// Scheduling priority cannot be set here: always returns -1.
pub fn sys_set_priority(_prio: isize) -> (r: isize)
    ensures
        r == -1,
{
    -1
}

/// Maps `[start, start + len)` with permission mask `port` into the task's
/// address space: 0 on success, -1, with nothing changed, on any refusal.
pub fn sys_mmap(task: &mut Task, start: usize, len: usize, port: usize) -> (r: isize)
    requires
        old(task).wf(),
    ensures
        final(task).wf(),
        final(task).ledger == old(task).ledger,
        final(task).exit_code == old(task).exit_code,
        r == 0 <==> old(task).space.mmap_outcome(start as int, len as int, port as int) is Ok,
        r == 0 || r == -1,
        r == 0 ==> old(task).space.mapped_into(final(task).space, start as int, len as int, port as int),
        r == -1 ==> *final(task) == *old(task),
{
    match task.space.mmap(start, len, port) {
        Ok(()) => 0,
        Err(_) => -1,
    }
}

/// Unmaps `[start, start + len)` from the task's address space: 0 on
/// success, -1, with nothing changed, when any page of it is unmapped or
/// `start` is not page-aligned.
pub fn sys_munmap(task: &mut Task, start: usize, len: usize) -> (r: isize)
    requires
        old(task).wf(),
    ensures
        final(task).wf(),
        final(task).ledger == old(task).ledger,
        final(task).exit_code == old(task).exit_code,
        r == 0 <==> old(task).space.munmap_outcome(start as int, len as int) is Ok,
        r == 0 || r == -1,
        r == 0 ==> old(task).space.unmapped_into(final(task).space, start as int, len as int),
        r == -1 ==> *final(task) == *old(task),
{
    match task.space.munmap(start, len) {
        Ok(()) => 0,
        Err(_) => -1,
    }
}

/// The bytes of a ledger's statistics at time `now`, as they lie in task memory.
pub open spec fn info_bytes_at(ledger: TaskInfoLedger, now: usize) -> Seq<u8> {
    task_info_bytes(ledger.status(), ledger.counts(), elapsed(ledger.first_scheduled(), now))
}

/// Writes the task's statistics at time `now_ms` to the `TaskInfo` at task
/// address `ti` and returns 0; faults, with nothing changed, unless the
/// whole `TaskInfo` lies in writable pages.
pub fn sys_task_info(task: &mut Task, ti: usize, now_ms: usize) -> (r: Result<isize, AccessFault>)
    requires
        old(task).wf(),
    ensures
        final(task).wf(),
        final(task).ledger == old(task).ledger,
        final(task).exit_code == old(task).exit_code,
        r is Ok <==> old(task).space.range_writable(ti as int, info_bytes_at(old(task).ledger, now_ms).len() as int),
        r is Ok ==> r == Ok::<isize, AccessFault>(0) && old(task).space.written_into(
            final(task).space,
            ti as int,
            info_bytes_at(old(task).ledger, now_ms),
        ),
        r is Err ==> *final(task) == *old(task),
{
    let info = task.ledger.snapshot(now_ms);
    let bytes = info.to_bytes();
    match task.space.write_bytes(ti, &bytes) {
        Ok(()) => Ok(0),
        Err(f) => Err(f),
    }
}

/// What the trap path does once a syscall has been handled.
#[derive(Clone, Copy, Debug, PartialEq, Eq, Structural)]
pub enum SyscallAction {
    /// Resume the task with this value as the syscall's result.
    Return(isize),
    /// Switch to another task; resume this one later with result 0.
    Yielded,
    /// The task exited; switch to another task for good.
    Exited,
    /// The task passed a bad pointer and was ended; switch to another task.
    Faulted,
}

/// Handles syscall number `id` with arguments `args` at time `now_us`
/// (microseconds; the statistics use milliseconds): counts the call, even
/// one that then fails, and runs it. An unknown number returns -1 and
/// changes nothing.
pub fn syscall(task: &mut Task, id: usize, args: [usize; 3], now_us: usize) -> (r: SyscallAction)
    requires
        old(task).wf(),
    ensures
        final(task).wf(),
        (forall|s: SyscallId| s.spec_number() != id) ==> r == SyscallAction::Return(-1isize) && *final(task) == *old(task),
        forall|s: SyscallId| s.spec_number() == id ==> {
            &&& final(task).ledger.counts() == counts_after(old(task).ledger.counts(), id as int, 1)
            &&& match s {
                SyscallId::Exit => r == SyscallAction::Exited && final(task).exit_code == Some(args[0] as i32)
                    && final(task).ledger.status() == TaskStatus::Exited,
                SyscallId::Yield => r == SyscallAction::Yielded && final(task).ledger.status() == TaskStatus::Ready,
                SyscallId::SetPriority => r == SyscallAction::Return(-1isize),
                SyscallId::GetTime => r == if old(task).space.range_writable(
                    args[0] as int,
                    time_val_bytes(TimeVal::spec_from_us(now_us)).len() as int,
                ) {
                    SyscallAction::Return(0)
                } else {
                    SyscallAction::Faulted
                },
                SyscallId::Mmap => r == SyscallAction::Return(
                    if old(task).space.mmap_outcome(args[0] as int, args[1] as int, args[2] as int) is Ok {
                        0isize
                    } else {
                        -1isize
                    },
                ),
                SyscallId::Munmap => r == SyscallAction::Return(
                    if old(task).space.munmap_outcome(args[0] as int, args[1] as int) is Ok {
                        0isize
                    } else {
                        -1isize
                    },
                ),
                SyscallId::TaskInfo => r == if old(task).space.range_writable(
                    args[0] as int,
                    task_info_bytes(
                        old(task).ledger.status(),
                        counts_after(old(task).ledger.counts(), id as int, 1),
                        elapsed(old(task).ledger.first_scheduled(), (now_us / 1000) as usize),
                    ).len() as int,
                ) {
                    SyscallAction::Return(0)
                } else {
                    SyscallAction::Faulted
                },
            }
        },
        r == SyscallAction::Faulted ==> final(task).ledger.status() == TaskStatus::Exited,
{
    let kind = match SyscallId::from_number(id) {
        Some(k) => k,
        None => {
            return SyscallAction::Return(-1);
        },
    };
    task.ledger.record_syscall(kind);
    let r = match kind {
        SyscallId::Exit => {
            sys_exit(task, args[0] as i32);
            SyscallAction::Exited
        },
        SyscallId::Yield => {
            sys_yield(task);
            SyscallAction::Yielded
        },
        SyscallId::SetPriority => SyscallAction::Return(sys_set_priority(args[0] as isize)),
        SyscallId::GetTime => match sys_get_time(task, args[0], args[1], now_us) {
            Ok(v) => SyscallAction::Return(v),
            Err(_) => SyscallAction::Faulted,
        },
        SyscallId::Mmap => SyscallAction::Return(sys_mmap(task, args[0], args[1], args[2])),
        SyscallId::Munmap => SyscallAction::Return(sys_munmap(task, args[0], args[1])),
        SyscallId::TaskInfo => match sys_task_info(task, args[0], now_us / 1000) {
            Ok(v) => SyscallAction::Return(v),
            Err(_) => SyscallAction::Faulted,
        },
    };
    if r == SyscallAction::Faulted {
        task.ledger.set_status(TaskStatus::Exited);
    }
    r
}

} // verus!
