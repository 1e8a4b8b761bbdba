use vstd::prelude::*;
use crate::config::MAX_SYSCALL_NUM;
use crate::wire::{le_bytes, push_le};

verus! {

/// Scheduling status of a task.
#[derive(Clone, Copy, Debug, PartialEq, Eq, Structural)]
pub enum TaskStatus {
    UnInit,
    Ready,
    Running,
    Exited,
}

impl TaskStatus {
    pub open spec fn spec_code(self) -> u32 {
        match self {
            TaskStatus::UnInit => 0,
            TaskStatus::Ready => 1,
            TaskStatus::Running => 2,
            TaskStatus::Exited => 3,
        }
    }

    /// The number that stands for this status in task memory.
    #[verifier::when_used_as_spec(spec_code)]
    pub fn code(self) -> (r: u32)
        ensures
            r == self.spec_code(),
    {
        match self {
            TaskStatus::UnInit => 0,
            TaskStatus::Ready => 1,
            TaskStatus::Running => 2,
            TaskStatus::Exited => 3,
        }
    }
}

/// The syscalls a task can make, each with its number.
#[derive(Clone, Copy, Debug, PartialEq, Eq, Structural)]
pub enum SyscallId {
    Exit,
    Yield,
    SetPriority,
    GetTime,
    Munmap,
    Mmap,
    TaskInfo,
}

pub const SYSCALL_EXIT: usize = 93;
pub const SYSCALL_YIELD: usize = 124;
pub const SYSCALL_SET_PRIORITY: usize = 140;
pub const SYSCALL_GET_TIME: usize = 169;
pub const SYSCALL_MUNMAP: usize = 215;
pub const SYSCALL_MMAP: usize = 222;
pub const SYSCALL_TASK_INFO: usize = 410;

impl SyscallId {
    pub open spec fn spec_number(self) -> usize {
        match self {
            SyscallId::Exit => SYSCALL_EXIT,
            SyscallId::Yield => SYSCALL_YIELD,
            SyscallId::SetPriority => SYSCALL_SET_PRIORITY,
            SyscallId::GetTime => SYSCALL_GET_TIME,
            SyscallId::Munmap => SYSCALL_MUNMAP,
            SyscallId::Mmap => SYSCALL_MMAP,
            SyscallId::TaskInfo => SYSCALL_TASK_INFO,
        }
    }

    /// The syscall's number, which is also its slot in the count table.
    #[verifier::when_used_as_spec(spec_number)]
    pub fn number(self) -> (r: usize)
        ensures
            r == self.spec_number(),
            r < MAX_SYSCALL_NUM,
    {
        match self {
            SyscallId::Exit => SYSCALL_EXIT,
            SyscallId::Yield => SYSCALL_YIELD,
            SyscallId::SetPriority => SYSCALL_SET_PRIORITY,
            SyscallId::GetTime => SYSCALL_GET_TIME,
            SyscallId::Munmap => SYSCALL_MUNMAP,
            SyscallId::Mmap => SYSCALL_MMAP,
            SyscallId::TaskInfo => SYSCALL_TASK_INFO,
        }
    }

    /// The syscall with number `n`, if there is one.
    pub fn from_number(n: usize) -> (r: Option<SyscallId>)
        ensures
            r matches Some(s) ==> s.spec_number() == n,
            r is None ==> forall|s: SyscallId| s.spec_number() != n,
    {
        if n == SYSCALL_EXIT {
            Some(SyscallId::Exit)
        } else if n == SYSCALL_YIELD {
            Some(SyscallId::Yield)
        } else if n == SYSCALL_SET_PRIORITY {
            Some(SyscallId::SetPriority)
        } else if n == SYSCALL_GET_TIME {
            Some(SyscallId::GetTime)
        } else if n == SYSCALL_MUNMAP {
            Some(SyscallId::Munmap)
        } else if n == SYSCALL_MMAP {
            Some(SyscallId::Mmap)
        } else if n == SYSCALL_TASK_INFO {
            Some(SyscallId::TaskInfo)
        } else {
            None
        }
    }
}

/// What a task learns of itself: its status, how often it made each
/// syscall, and how long it has run since first scheduled (milliseconds).
#[derive(Clone, Copy)]
pub struct TaskInfo {
    pub status: TaskStatus,
    pub syscall_times: [u32; MAX_SYSCALL_NUM],
    pub time: usize,
}

/// A count table in task memory: each slot a little-endian `u32`, in order.
pub open spec fn counts_bytes(s: Seq<u32>) -> Seq<u8>
    decreases s.len(),
{
    if s.len() == 0 {
        Seq::empty()
    } else {
        counts_bytes(s.drop_last()) + le_bytes(s.last() as nat, 4)
    }
}

/// How a `TaskInfo` lies in task memory: the status code as a `u32`, the
/// count table, four bytes of padding, then the time as a little-endian word.
pub open spec fn task_info_bytes(status: TaskStatus, counts: Seq<u32>, time: usize) -> Seq<u8> {
    le_bytes(status.spec_code() as nat, 4) + counts_bytes(counts) + le_bytes(0, 4) + le_bytes(time as nat, 8)
}

impl TaskInfo {
    /// The bytes that stand for this value in task memory.
    pub fn to_bytes(&self) -> (r: Vec<u8>)
        ensures
            r@ == task_info_bytes(self.status, self.syscall_times@, self.time),
    {
        let mut out: Vec<u8> = Vec::new();
        push_le(&mut out, self.status.code() as u64, 4);
        let ghost head = out@;
        let mut i: usize = 0;
        while i < MAX_SYSCALL_NUM
            invariant
                i <= MAX_SYSCALL_NUM,
                self.syscall_times@.len() == MAX_SYSCALL_NUM,
                out@ == head + counts_bytes(self.syscall_times@.subrange(0, i as int)),
            decreases MAX_SYSCALL_NUM - i,
        {
            push_le(&mut out, self.syscall_times[i] as u64, 4);
            let ghost s = self.syscall_times@.subrange(0, i + 1);
            assert(s.drop_last() =~= self.syscall_times@.subrange(0, i as int));
            assert(out@ =~= head + counts_bytes(s));
            i = i + 1;
        }
        assert(self.syscall_times@.subrange(0, MAX_SYSCALL_NUM as int) =~= self.syscall_times@);
        push_le(&mut out, 0, 4);
        push_le(&mut out, self.time as u64, 8);
        assert(out@ =~= task_info_bytes(self.status, self.syscall_times@, self.time));
        out
    }
}

/// A counter after one more call: one more, held at the largest `u32`.
pub open spec fn bumped(c: u32) -> u32 {
    if c < u32::MAX { (c + 1) as u32 } else { c }
}

/// The count table after `n` calls of the syscall in slot `k`.
pub open spec fn counts_after(counts: Seq<u32>, k: int, n: nat) -> Seq<u32>
    decreases n,
{
    if n == 0 {
        counts
    } else {
        let c = counts_after(counts, k, (n - 1) as nat);
        c.update(k, bumped(c[k]))
    }
}

/// Elapsed time since first scheduled, or zero when never scheduled.
pub open spec fn elapsed(first: Option<usize>, now: usize) -> usize {
    match first {
        Some(t) => if now >= t { (now - t) as usize } else { 0 },
        None => 0,
    }
}

/// One task's usage statistics.
pub struct TaskInfoLedger {
    status: TaskStatus,
    syscall_times: [u32; MAX_SYSCALL_NUM],
    first_scheduled: Option<usize>,
}

impl TaskInfoLedger {
    pub closed spec fn status(&self) -> TaskStatus {
        self.status
    }

    /// The count table, one slot per syscall number.
    pub closed spec fn counts(&self) -> Seq<u32> {
        self.syscall_times@
    }

    /// When the task was first scheduled, if it has been.
    pub closed spec fn first_scheduled(&self) -> Option<usize> {
        self.first_scheduled
    }

    /// A ledger for a task that is ready and has made no syscall.
    pub fn new() -> (r: Self)
        ensures
            r.status() == TaskStatus::Ready,
            r.counts() == Seq::new(MAX_SYSCALL_NUM as nat, |i: int| 0u32),
            r.first_scheduled() is None,
    {
        let r = TaskInfoLedger {
            status: TaskStatus::Ready,
            syscall_times: [0u32; MAX_SYSCALL_NUM],
            first_scheduled: None,
        };
        assert(r.counts() =~= Seq::new(MAX_SYSCALL_NUM as nat, |i: int| 0u32));
        r
    }

    /// Counts one more call of `id`.
    pub fn record_syscall(&mut self, id: SyscallId)
        ensures
            final(self).counts() == counts_after(old(self).counts(), id.spec_number() as int, 1),
            final(self).counts() == old(self).counts().update(
                id.spec_number() as int,
                bumped(old(self).counts()[id.spec_number() as int]),
            ),
            final(self).status() == old(self).status(),
            final(self).first_scheduled() == old(self).first_scheduled(),
    {
        let k = id.number();
        let c = self.syscall_times[k];
        let n: u32 = if c < u32::MAX { c + 1 } else { c };
        self.syscall_times[k] = n;
        assert(self.counts() =~= old(self).counts().update(k as int, bumped(c)));
        assert(counts_after(old(self).counts(), k as int, 0) == old(self).counts());
    }

    /// How many calls of `id` have been counted.
    pub fn count_of(&self, id: SyscallId) -> (r: u32)
        ensures
            r == self.counts()[id.spec_number() as int],
    {
        self.syscall_times[id.number()]
    }

    pub fn current_status(&self) -> (r: TaskStatus)
        ensures
            r == self.status(),
    {
        self.status
    }

    pub fn set_status(&mut self, status: TaskStatus)
        ensures
            final(self).status() == status,
            final(self).counts() == old(self).counts(),
            final(self).first_scheduled() == old(self).first_scheduled(),
    {
        self.status = status;
    }

    /// Marks the task running at time `now`; the first such time is kept.
    pub fn mark_scheduled(&mut self, now: usize)
        ensures
            final(self).status() == TaskStatus::Running,
            final(self).counts() == old(self).counts(),
            final(self).first_scheduled() == match old(self).first_scheduled() {
                Some(t) => Some(t),
                None => Some(now),
            },
    {
        self.status = TaskStatus::Running;
        if self.first_scheduled.is_none() {
            self.first_scheduled = Some(now);
        }
    }

    /// The task's statistics at time `now`.
    pub fn snapshot(&self, now: usize) -> (r: TaskInfo)
        ensures
            r.status == self.status(),
            r.syscall_times@ == self.counts(),
            r.time == elapsed(self.first_scheduled(), now),
    {
        let time: usize = match self.first_scheduled {
            Some(t) => if now >= t { now - t } else { 0 },
            None => 0,
        };
        TaskInfo { status: self.status, syscall_times: self.syscall_times, time }
    }
}

/// Counting `n` calls of the syscall in slot `k` raises that slot by `n`,
/// held at the largest `u32`, and leaves every other slot as it was; so a
/// table that starts at zero reads exactly `n` after `n` calls.
pub proof fn lemma_counts_after(counts: Seq<u32>, k: int, n: nat)
    requires
        0 <= k < counts.len(),
    ensures
        counts_after(counts, k, n).len() == counts.len(),
        counts_after(counts, k, n)[k] == if counts[k] + n <= u32::MAX {
            (counts[k] + n) as u32
        } else {
            u32::MAX
        },
        forall|j: int| 0 <= j < counts.len() && j != k ==> #[trigger] counts_after(counts, k, n)[j] == counts[j],
    decreases n,
{
    if n > 0 {
        lemma_counts_after(counts, k, (n - 1) as nat);
    }
}

} // verus!
