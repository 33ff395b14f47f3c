//! Locks and semaphores handed to user programs, each with an id of its own.

use vstd::prelude::*;
use crate::sync::mutex::MutexBlocking;
use crate::sync::semaphore::Semaphore;

verus! {

/// Hands out ids 1, 2, 3, ... in order.
pub struct IdAllocator {
    last: usize,
    issued: Ghost<Set<usize>>,
}

impl IdAllocator {
    /// Every id handed out lies between 1 and the last one.
    #[verifier::type_invariant]
    spec fn issued_up_to_last(self) -> bool {
        forall|x: usize| self.issued@.contains(x) ==> 1 <= x <= self.last
    }

    /// The last id handed out; 0 before the first.
    pub closed spec fn last_id(&self) -> usize {
        self.last
    }

    /// The ids handed out so far.
    pub closed spec fn issued(&self) -> Set<usize> {
        self.issued@
    }

    /// An allocator that has handed out nothing.
    pub fn new() -> (a: Self)
        ensures
            a.last_id() == 0,
            a.issued() == Set::<usize>::empty(),
    {
        IdAllocator { last: 0, issued: Ghost(Set::empty()) }
    }

    /// Whether another id can be handed out.
    pub fn has_next(&self) -> (r: bool)
        ensures
            r == (self.last_id() < usize::MAX),
    {
        self.last < usize::MAX
    }

    /// The next id: one more than the last, and above every id handed out
    /// before.
    pub fn next_id(&mut self) -> (id: usize)
        requires
            old(self).last_id() < usize::MAX,
        ensures
            id == old(self).last_id() + 1,
            final(self).last_id() == id,
            forall|x: usize| old(self).issued().contains(x) ==> x < id,
            final(self).issued() == old(self).issued().insert(id),
    {
        proof {
            use_type_invariant(&*self);
        }
        self.last = self.last + 1;
        self.issued = Ghost(self.issued@.insert(self.last));
        self.last
    }
}

/// A lock handed to a user program.
pub struct MutexForUser {
    id: usize,
    pub mutex: MutexBlocking,
}

impl MutexForUser {
    /// The id of the lock.
    pub closed spec fn spec_id(&self) -> usize {
        self.id
    }

    /// The lock itself.
    pub closed spec fn lock_state(&self) -> MutexBlocking {
        self.mutex
    }

    /// A free lock with the next id of `ids`.
    pub fn new(ids: &mut IdAllocator) -> (m: Self)
        requires
            old(ids).last_id() < usize::MAX,
        ensures
            m.spec_id() == old(ids).last_id() + 1,
            final(ids).last_id() == m.spec_id(),
            forall|x: usize| old(ids).issued().contains(x) ==> x < m.spec_id(),
            final(ids).issued() == old(ids).issued().insert(m.spec_id()),
            m.lock_state()@.consistent(),
            m.lock_state()@.holder is None,
            m.lock_state()@.waiters.len() == 0,
    {
        let id = ids.next_id();
        MutexForUser { id, mutex: MutexBlocking::new() }
    }

    /// The id of the lock.
    pub fn id(&self) -> (r: usize)
        ensures
            r == self.spec_id(),
    {
        self.id
    }

    /// A lock cannot be read from.
    pub fn readable(&self) -> (r: bool)
        ensures
            !r,
    {
        false
    }

    /// A lock cannot be written to.
    pub fn writable(&self) -> (r: bool)
        ensures
            !r,
    {
        false
    }
}

/// A semaphore handed to a user program.
pub struct SemaphoreForUser {
    id: usize,
    pub semaphore: Semaphore,
}

impl SemaphoreForUser {
    /// The id of the semaphore.
    pub closed spec fn spec_id(&self) -> usize {
        self.id
    }

    /// The semaphore itself.
    pub closed spec fn semaphore_state(&self) -> Semaphore {
        self.semaphore
    }

    /// A semaphore of `count` units with the next id of `ids`.
    pub fn new(ids: &mut IdAllocator, count: usize) -> (s: Self)
        requires
            old(ids).last_id() < usize::MAX,
        ensures
            s.spec_id() == old(ids).last_id() + 1,
            final(ids).last_id() == s.spec_id(),
            forall|x: usize| old(ids).issued().contains(x) ==> x < s.spec_id(),
            final(ids).issued() == old(ids).issued().insert(s.spec_id()),
            s.semaphore_state()@.count == (count as isize) as int,
            s.semaphore_state()@.waiters.len() == 0,
            s.semaphore_state()@.capacity == count,
            count <= isize::MAX ==> s.semaphore_state()@.count == count
                && s.semaphore_state()@.balanced(),
    {
        let id = ids.next_id();
        SemaphoreForUser { id, semaphore: Semaphore::new(count) }
    }

    /// The id of the semaphore.
    pub fn id(&self) -> (r: usize)
        ensures
            r == self.spec_id(),
    {
        self.id
    }

    /// A semaphore cannot be read from.
    pub fn readable(&self) -> (r: bool)
        ensures
            !r,
    {
        false
    }

    /// A semaphore cannot be written to.
    pub fn writable(&self) -> (r: bool)
        ensures
            !r,
    {
        false
    }
}

} // verus!
