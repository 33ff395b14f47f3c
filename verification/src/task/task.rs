//! Types related to task management

use vstd::prelude::*;
use crate::syscall::SysCallAuditArray;
use crate::task::context::TaskContext;

verus! {

/// The task control block (TCB) of a task.
#[derive(Copy, Clone)]
pub struct TaskControlBlock {
    /// The task status in it's lifecycle
    pub task_status: TaskStatus,
    /// The task context
    pub task_cx: TaskContext,
    /// The task's own system-call counters
    pub syscall_audit: SysCallAuditArray,
}

/// The status of a task
#[derive(Copy, Clone, PartialEq, Eq, Structural)]
pub enum TaskStatus {
    /// uninitialized
    UnInit,
    /// ready to run
    Ready,
    /// running
    Running,
    /// exited
    Exited,
}

} // verus!
