//! What the deadlock checks read of a process: its locks, its semaphores, its
//! threads and the semaphore units each thread holds.

use vstd::prelude::*;
use crate::sync::semaphore::Semaphore;

verus! {

/// The resources of a thread that has started.
#[derive(Clone, Copy, Debug, PartialEq, Eq, Structural)]
pub struct TaskUserRes {
    /// The thread's id within its process.
    pub tid: usize,
}

/// A thread slot of a process.
#[derive(Clone, Copy, Debug, PartialEq, Eq, Structural)]
pub struct ThreadEntry {
    /// The thread's resources, once it has them.
    pub res: Option<TaskUserRes>,
}

/// The synchronisation state of a process.
pub struct ProcessControlBlockInner<M> {
    /// The process's locks, by id; `None` for a freed id.
    pub mutex_list: Vec<Option<M>>,
    /// The process's semaphores, by id; `None` for a freed id.
    pub semaphore_list: Vec<Option<Semaphore>>,
    /// The process's thread slots; `None` for a free slot.
    pub tasks: Vec<Option<ThreadEntry>>,
    /// `semaphore_allocation[tid][sem_id]`: the units of semaphore `sem_id`
    /// that thread `tid` holds.
    pub semaphore_allocation: Vec<Vec<usize>>,
}

} // verus!
