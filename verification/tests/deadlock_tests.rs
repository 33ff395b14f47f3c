use rcore_os::sync::mutex::{LockAction, Mutex, MutexBlocking, MutexSpin};
use rcore_os::sync::semaphore::Semaphore;
use rcore_os::syscall::SysCallAuditArray;
use rcore_os::task::banker::is_unsafe;
use rcore_os::task::context::TaskContext;
use rcore_os::task::deadlock::{detect_deadlock_mutex, detect_deadlock_semaphore};
use rcore_os::task::process::{ProcessControlBlockInner, TaskUserRes, ThreadEntry};
use rcore_os::task::task::{TaskControlBlock, TaskStatus};

fn thread(tid: usize) -> Option<ThreadEntry> {
    Some(ThreadEntry { res: Some(TaskUserRes { tid }) })
}

fn locks(mutexes: Vec<Option<MutexBlocking>>, tasks: Vec<Option<ThreadEntry>>) -> ProcessControlBlockInner<MutexBlocking> {
    ProcessControlBlockInner {
        mutex_list: mutexes,
        semaphore_list: vec![],
        tasks,
        semaphore_allocation: vec![],
    }
}

fn sems(
    sems: Vec<Option<Semaphore>>,
    tasks: Vec<Option<ThreadEntry>>,
    held: Vec<Vec<usize>>,
) -> ProcessControlBlockInner<MutexBlocking> {
    ProcessControlBlockInner {
        mutex_list: vec![],
        semaphore_list: sems,
        tasks,
        semaphore_allocation: held,
    }
}

#[test]
fn relocking_own_mutex_is_a_deadlock() {
    let mut m = MutexBlocking::new();
    assert_eq!(m.lock(1), LockAction::Acquired);
    let p = locks(vec![None, Some(m), Some(MutexBlocking::new())], vec![thread(0), thread(1)]);
    assert!(detect_deadlock_mutex(&p, 1, 1));
    assert!(!detect_deadlock_mutex(&p, 0, 1));
    assert!(!detect_deadlock_mutex(&p, 1, 2));
    assert!(!detect_deadlock_mutex(&p, 1, 0));
    assert!(!detect_deadlock_mutex(&p, 1, 3));
}

#[test]
fn relocking_is_a_deadlock_even_outside_the_thread_table() {
    let mut m = MutexBlocking::new();
    assert_eq!(m.lock(9), LockAction::Acquired);
    let p = locks(vec![Some(m)], vec![]);
    assert!(detect_deadlock_mutex(&p, 9, 0));
    assert!(!detect_deadlock_mutex(&p, 8, 0));
}

#[test]
fn circular_wait_on_two_locks_is_a_deadlock() {
    // Thread 1 holds lock 0, thread 2 holds lock 1 and waits for lock 0.
    let mut a = MutexBlocking::new();
    let mut b = MutexBlocking::new();
    assert_eq!(a.lock(1), LockAction::Acquired);
    assert_eq!(b.lock(2), LockAction::Acquired);
    assert_eq!(a.lock(2), LockAction::Block);
    let p = locks(vec![Some(a), Some(b)], vec![thread(1), thread(2)]);
    // Thread 1 asking for lock 1 closes the cycle.
    assert!(detect_deadlock_mutex(&p, 1, 1));
}

#[test]
fn waiting_for_a_lock_whose_holder_can_finish_is_no_deadlock() {
    let mut a = MutexBlocking::new();
    assert_eq!(a.lock(2), LockAction::Acquired);
    let p = locks(vec![Some(a)], vec![thread(1), thread(2)]);
    assert!(!detect_deadlock_mutex(&p, 1, 0));
}

#[test]
fn spin_locks_are_checked_too() {
    let mut a = MutexSpin::new();
    assert_eq!(a.lock(3), LockAction::Acquired);
    let p = ProcessControlBlockInner {
        mutex_list: vec![Some(a)],
        semaphore_list: vec![],
        tasks: vec![thread(3)],
        semaphore_allocation: vec![],
    };
    assert!(detect_deadlock_mutex(&p, 3, 0));
    assert!(!detect_deadlock_mutex(&p, 4, 0));
}

#[test]
fn semaphore_check_without_such_semaphore() {
    let p = sems(vec![], vec![thread(0)], vec![]);
    assert!(!detect_deadlock_semaphore(&p, 0, 0));
    assert!(!detect_deadlock_semaphore(&p, 0, 5));
    let q = sems(vec![None, Some(Semaphore::new(0))], vec![thread(0)], vec![]);
    assert!(!detect_deadlock_semaphore(&q, 0, 2));
}

#[test]
fn freed_semaphore_slot_has_no_units() {
    // Nobody holds or can give back a unit of the freed slot 0.
    let q = sems(vec![None, Some(Semaphore::new(1))], vec![thread(0)], vec![]);
    assert!(detect_deadlock_semaphore(&q, 0, 0));
    assert!(!detect_deadlock_semaphore(&q, 0, 1));
}

#[test]
fn available_unit_is_never_a_deadlock() {
    let p = sems(vec![Some(Semaphore::new(1)), Some(Semaphore::new(0))], vec![thread(0), thread(1)], vec![]);
    assert!(!detect_deadlock_semaphore(&p, 0, 0));
    assert!(!detect_deadlock_semaphore(&p, 1, 0));
}

#[test]
fn unit_held_by_a_thread_that_can_finish_is_no_deadlock() {
    // Semaphore 0 has no unit left: thread 7 holds it and waits for nothing.
    let mut s = Semaphore::new(1);
    assert!(!s.down(7));
    let p = sems(vec![Some(s)], vec![thread(3), thread(7)], vec![vec![], vec![], vec![], vec![], vec![], vec![], vec![], vec![1]]);
    assert!(!detect_deadlock_semaphore(&p, 3, 0));
}

#[test]
fn circular_wait_is_a_deadlock_whatever_else_is_free() {
    // Thread 0 holds s1, thread 1 holds s0 and sleeps on s1; s2 has a unit
    // that neither needs. Thread 0 asking for s0 closes the cycle.
    let mut s0 = Semaphore::new(1);
    let mut s1 = Semaphore::new(1);
    assert!(!s1.down(0));
    assert!(!s0.down(1));
    assert!(s1.down(1));
    let s2 = Semaphore::new(1);
    let p = sems(
        vec![Some(s0), Some(s1), Some(s2)],
        vec![thread(0), thread(1)],
        vec![vec![0, 1, 0], vec![1, 0, 0]],
    );
    assert!(detect_deadlock_semaphore(&p, 0, 0));
    // Asking for s2 instead is safe.
    assert!(!detect_deadlock_semaphore(&p, 0, 2));
}

#[test]
fn nothing_available_and_nobody_can_finish_is_a_deadlock() {
    let mut s = Semaphore::new(1);
    assert!(!s.down(0));
    let p = sems(vec![Some(s)], vec![thread(0)], vec![vec![1]]);
    // Thread 0 holds the only unit and asks for another.
    assert!(detect_deadlock_semaphore(&p, 0, 0));
}

#[test]
fn banker_safety_on_plain_matrices() {
    // One resource with one free unit; thread 0 needs two, thread 1 needs
    // one and holds one: thread 1 finishes, then thread 0.
    assert!(!is_unsafe(&vec![1], &vec![vec![0], vec![1]], &vec![vec![2], vec![1]], &vec![true, true]));
    // With thread 1 needing two as well, nobody can start.
    assert!(is_unsafe(&vec![1], &vec![vec![0], vec![1]], &vec![vec![2], vec![2]], &vec![true, true]));
    // An empty slot does not count.
    assert!(!is_unsafe(&vec![1], &vec![vec![0], vec![0]], &vec![vec![1], vec![5]], &vec![true, false]));
}

#[test]
fn task_control_block_holds_its_audit() {
    let tcb = TaskControlBlock {
        task_status: TaskStatus::Ready,
        task_cx: TaskContext { ra: 0, sp: 0x8000, s: [0; 12] },
        syscall_audit: SysCallAuditArray::new(),
    };
    assert!(tcb.task_status == TaskStatus::Ready);
    assert!(tcb.task_status != TaskStatus::Running);
    assert_eq!(tcb.task_cx.sp, 0x8000);
    assert_eq!(tcb.syscall_audit.get(3).id(), 169);
}
