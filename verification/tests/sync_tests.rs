use rcore_os::fs::sync::{IdAllocator, MutexForUser, SemaphoreForUser};
use rcore_os::sync::mutex::{LockAction, Mutex, MutexBlocking, MutexSpin};
use rcore_os::sync::semaphore::Semaphore;

#[test]
fn spin_lock_is_exclusive() {
    let mut m = MutexSpin::new();
    assert!(!m.is_locked());
    assert_eq!(m.lock(1), LockAction::Acquired);
    assert!(m.is_locked());
    assert!(m.is_locked_by(1));
    assert!(!m.is_locked_by(2));
    assert_eq!(m.lock(2), LockAction::Retry);
    assert!(m.is_locked_by(1));
    assert_eq!(m.unlock(1), None);
    assert!(!m.is_locked());
    assert_eq!(m.lock(2), LockAction::Acquired);
    assert!(m.is_locked_by(2));
}

#[test]
fn blocking_lock_unlock_restores_free_lock() {
    let mut m = MutexBlocking::new();
    assert_eq!(m.lock(7), LockAction::Acquired);
    assert_eq!(m.unlock(7), None);
    assert!(!m.is_locked());
    assert!(!m.is_locked_by(7));
}

#[test]
fn blocking_lock_hands_over_in_arrival_order() {
    let mut m = MutexBlocking::new();
    assert_eq!(m.lock(1), LockAction::Acquired);
    assert_eq!(m.lock(2), LockAction::Block);
    assert_eq!(m.lock(3), LockAction::Block);
    assert_eq!(m.unlock(1), Some(2));
    assert!(m.is_locked_by(2));
    assert!(m.is_locked());
    assert_eq!(m.unlock(2), Some(3));
    assert!(m.is_locked_by(3));
    assert_eq!(m.unlock(3), None);
    assert!(!m.is_locked());
}

#[test]
fn semaphore_counts_units() {
    let mut s = Semaphore::new(2);
    assert_eq!(s.max_value(), 2);
    assert_eq!(s.current_value(), 2);
    assert!(!s.down(1));
    assert!(!s.down(2));
    assert_eq!(s.current_value(), 0);
    assert!(s.down(3));
    assert!(s.down(4));
    assert_eq!(s.inner.count, -2);
    assert_eq!(s.inner.wait_queue.len(), 2);
    assert_eq!(s.current_value(), 0);
    assert_eq!(s.up(), Some(3));
    assert_eq!(s.up(), Some(4));
    assert_eq!(s.up(), None);
    assert_eq!(s.current_value(), 1);
    assert_eq!(s.max_value(), 2);
}

#[test]
fn semaphore_down_up_restores() {
    let mut s = Semaphore::new(0);
    assert!(s.down(5));
    assert_eq!(s.up(), Some(5));
    assert_eq!(s.inner.count, 0);
    assert!(s.inner.wait_queue.is_empty());
    let mut t = Semaphore::new(3);
    assert!(!t.down(1));
    assert_eq!(t.up(), None);
    assert_eq!(t.inner.count, 3);
}

#[test]
fn semaphore_with_huge_count_wraps() {
    let s = Semaphore::new(usize::MAX);
    assert_eq!(s.inner.count, -1);
    assert_eq!(s.current_value(), 0);
    assert_eq!(s.max_value(), usize::MAX);
}

#[test]
fn user_objects_get_increasing_ids() {
    let mut ids = IdAllocator::new();
    let a = MutexForUser::new(&mut ids);
    let b = MutexForUser::new(&mut ids);
    assert_eq!(a.id(), 1);
    assert_eq!(b.id(), 2);
    assert!(!a.readable());
    assert!(!a.writable());
    assert!(!a.mutex.is_locked());
    let mut sem_ids = IdAllocator::new();
    let s = SemaphoreForUser::new(&mut sem_ids, 4);
    assert_eq!(s.id(), 1);
    assert_eq!(s.semaphore.current_value(), 4);
    assert!(!s.readable());
    assert!(!s.writable());
    assert!(ids.has_next());
    assert_eq!(ids.next_id(), 3);
}

#[test]
fn blocking_lock_reports_its_waiters() {
    let mut m = MutexBlocking::new();
    assert_eq!(m.lock(1), LockAction::Acquired);
    assert_eq!(m.lock(2), LockAction::Block);
    assert!(m.is_waiting(2));
    assert!(!m.is_waiting(1));
    let mut s = Semaphore::new(0);
    assert!(s.down(4));
    assert!(s.is_waiting(4));
    assert!(!s.is_waiting(5));
    let spin = MutexSpin::new();
    assert!(!spin.is_waiting(1));
}

#[test]
fn take_and_give_back_restores_a_semaphore() {
    let mut s = Semaphore::new(3);
    assert!(!s.down(1));
    assert_eq!(s.up(), None);
    assert_eq!(s.inner.count, 3);
    assert!(s.inner.wait_queue.is_empty());
    assert_eq!(s.max_value(), 3);
}
