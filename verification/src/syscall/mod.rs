//! Decoding of system calls, and the count kept of each audited call.

use vstd::prelude::*;

pub mod process;

verus! {

/// write syscall
pub const SYSCALL_WRITE: usize = 64;

/// exit syscall
pub const SYSCALL_EXIT: usize = 93;

/// yield syscall
pub const SYSCALL_YIELD: usize = 124;

/// gettime syscall
pub const SYSCALL_GET_TIME: usize = 169;

/// trace syscall
pub const SYSCALL_TRACE: usize = 410;

/// The number of audited system calls.
pub const NUM_AUDITED_SYSCALLS: usize = 5;

/// The audited system calls, in the order of their counters.
pub const SYSCALL_ID_ARRAY: [usize; 5] = [
    SYSCALL_WRITE,
    SYSCALL_EXIT,
    SYSCALL_YIELD,
    SYSCALL_GET_TIME,
    SYSCALL_TRACE,
];

/// The counter slot of system call `id`: its position in `SYSCALL_ID_ARRAY`,
/// or -1 for a call that is not audited.
pub open spec fn audit_slot(id: usize) -> int {
    if id == SYSCALL_WRITE {
        0
    } else if id == SYSCALL_EXIT {
        1
    } else if id == SYSCALL_YIELD {
        2
    } else if id == SYSCALL_GET_TIME {
        3
    } else if id == SYSCALL_TRACE {
        4
    } else {
        -1
    }
}

/// Audition authority for a SysCall
#[derive(Copy, Clone)]
pub struct SysCallAudit {
    id: usize,
    count: isize,
}

impl SysCallAudit {
    /// The system call counted.
    pub closed spec fn syscall_id(self) -> usize {
        self.id
    }

    /// How many times it was made.
    pub closed spec fn times(self) -> int {
        self.count as int
    }

    /// The system call counted.
    pub fn id(&self) -> (r: usize)
        ensures
            r == self.syscall_id(),
    {
        self.id
    }

    /// How many times it was made.
    pub fn count(&self) -> (r: isize)
        ensures
            r == self.times(),
    {
        self.count
    }
}

/// Array of Audition authority for all SysCalls.
#[derive(Copy, Clone)]
pub struct SysCallAuditArray {
    array: [SysCallAudit; 5],
}

impl SysCallAuditArray {
    /// The system call of each counter.
    pub closed spec fn ids(&self) -> Seq<usize> {
        self.array@.map_values(|a: SysCallAudit| a.id)
    }

    /// The value of each counter.
    pub closed spec fn counts(&self) -> Seq<int> {
        self.array@.map_values(|a: SysCallAudit| a.count as int)
    }

    /// Counter `i` belongs to the `i`-th audited system call, and each of the
    /// five counters fits in an `isize`.
    pub open spec fn wf(&self) -> bool {
        &&& self.ids() =~= SYSCALL_ID_ARRAY@
        &&& self.counts().len() == 5
        &&& forall|i: int| 0 <= i < 5 ==> isize::MIN <= #[trigger] self.counts()[i] <= isize::MAX
    }

    /// One counter at zero for each audited system call.
    pub fn new() -> (a: Self)
        ensures
            a.wf(),
            a.counts() =~= Seq::new(5, |i: int| 0int),
    {
        let mut arr = [SysCallAudit { id: 0, count: 0 };5];
        let mut i: usize = 0;
        while i < NUM_AUDITED_SYSCALLS
            invariant
                i <= 5,
                forall|j: int| 0 <= j < i ==> arr@[j].id == SYSCALL_ID_ARRAY@[j],
                forall|j: int| 0 <= j < 5 ==> arr@[j].count == 0,
            decreases 5 - i,
        {
            arr[i] = SysCallAudit { id: SYSCALL_ID_ARRAY[i], count: 0 };
            i += 1;
        }
        SysCallAuditArray { array: arr }
    }

    /// The counter at position `i`.
    pub fn get(&self, i: usize) -> (a: SysCallAudit)
        requires
            i < 5,
        ensures
            a.syscall_id() == self.ids()[i as int],
            a.times() == self.counts()[i as int],
    {
        self.array[i]
    }
}

/// Reset syscall audit counts for a new task
pub fn reset_syscall_audit(audit: &mut SysCallAuditArray)
    ensures
        old(audit).wf() ==> final(audit).wf(),
        final(audit).ids() == old(audit).ids(),
        final(audit).counts() =~= Seq::new(5, |i: int| 0int),
{
    let mut i: usize = 0;
    while i < NUM_AUDITED_SYSCALLS
        invariant
            i <= 5,
            forall|j: int| 0 <= j < 5 ==> audit.array@[j].id == old(audit).array@[j].id,
            forall|j: int| 0 <= j < i ==> audit.array@[j].count == 0,
        decreases 5 - i,
    {
        audit.array[i].count = 0;
        i += 1;
    }
    assert(audit.ids() =~= old(audit).ids());
}

/// A decoded system call: the handler to run and its arguments.
#[derive(Clone, Copy, Debug, PartialEq, Eq, Structural)]
pub enum SyscallRequest {
    /// Write `len` bytes at user address `buf` to file `fd`.
    Write { fd: usize, buf: usize, len: usize },
    /// End the calling task with `exit_code`.
    Exit { exit_code: i32 },
    /// Give up the CPU.
    Yield,
    /// Store the time at user address `ts`.
    GetTime { ts: usize, tz: usize },
    /// Trace request on the calling task.
    Trace { trace_request: usize, id: usize, data: usize },
}

/// The handler and arguments of audited system call `id` made with
/// arguments `a0`, `a1`, `a2`.
pub open spec fn decode_syscall(id: usize, a0: usize, a1: usize, a2: usize) -> SyscallRequest {
    if id == SYSCALL_WRITE {
        SyscallRequest::Write { fd: a0, buf: a1, len: a2 }
    } else if id == SYSCALL_EXIT {
        SyscallRequest::Exit { exit_code: a0 as i32 }
    } else if id == SYSCALL_YIELD {
        SyscallRequest::Yield
    } else if id == SYSCALL_GET_TIME {
        SyscallRequest::GetTime { ts: a0, tz: a1 }
    } else {
        SyscallRequest::Trace { trace_request: a0, id: a1, data: a2 }
    }
}

/// Decoding hands each handler the user's arguments unchanged and in
/// order: the first argument goes to the handler's first parameter, the
/// second to its second, the third to its third.
pub proof fn lemma_decode_keeps_argument_order(id: usize, a0: usize, a1: usize, a2: usize)
    requires
        audit_slot(id) >= 0,
    ensures
        match decode_syscall(id, a0, a1, a2) {
            SyscallRequest::Write { fd, buf, len } => id == SYSCALL_WRITE && fd == a0 && buf == a1
                && len == a2,
            SyscallRequest::Exit { exit_code } => id == SYSCALL_EXIT && exit_code == a0 as i32,
            SyscallRequest::Yield => id == SYSCALL_YIELD,
            SyscallRequest::GetTime { ts, tz } => id == SYSCALL_GET_TIME && ts == a0 && tz == a1,
            SyscallRequest::Trace { trace_request, id: trace_id, data } => id == SYSCALL_TRACE
                && trace_request == a0 && trace_id == a1 && data == a2,
        },
{
}

/// handle syscall exception with `syscall_id` and other arguments: count the
/// call in `audit` and decode it into the handler to run.
pub fn syscall(audit: &mut SysCallAuditArray, syscall_id: usize, args: [usize; 3]) -> (r:
    SyscallRequest)
    requires
        old(audit).wf(),
        audit_slot(syscall_id) >= 0,
        old(audit).counts()[audit_slot(syscall_id)] < isize::MAX,
    ensures
        final(audit).wf(),
        final(audit).ids() == old(audit).ids(),
        final(audit).counts() == old(audit).counts().update(
            audit_slot(syscall_id),
            old(audit).counts()[audit_slot(syscall_id)] + 1,
        ),
        r == decode_syscall(syscall_id, args@[0], args@[1], args@[2]),
{
    let ghost slot = audit_slot(syscall_id);
    let mut i: usize = 0;
    while i < NUM_AUDITED_SYSCALLS
        invariant_except_break
            i <= slot,
            audit.array@ == old(audit).array@,
        invariant
            0 <= slot < 5,
            old(audit).ids() =~= SYSCALL_ID_ARRAY@,
            old(audit).array@[slot].count < isize::MAX,
            SYSCALL_ID_ARRAY@[slot] == syscall_id,
        ensures
            audit.ids() =~= old(audit).ids(),
            audit.array@ == old(audit).array@.update(
                slot,
                SysCallAudit { id: syscall_id, count: (old(audit).array@[slot].count + 1) as isize },
            ),
        decreases 5 - i,
    {
        assert(old(audit).ids()[i as int] == SYSCALL_ID_ARRAY@[i as int]);
        if audit.array[i].id == syscall_id {
            audit.array[i].count += 1;
            break;
        }
        i += 1;
    }
    proof {
        assert(audit.counts() =~= old(audit).counts().update(slot, old(audit).counts()[slot] + 1));
    }
    match syscall_id {
        SYSCALL_WRITE => SyscallRequest::Write { fd: args[0], buf: args[1], len: args[2] },
        SYSCALL_EXIT => SyscallRequest::Exit { exit_code: args[0] as i32 },
        SYSCALL_YIELD => SyscallRequest::Yield,
        SYSCALL_GET_TIME => SyscallRequest::GetTime { ts: args[0], tz: args[1] },
        _ => SyscallRequest::Trace { trace_request: args[0], id: args[1], data: args[2] },
    }
}

} // verus!
