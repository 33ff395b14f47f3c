use vstd::prelude::*;
use std::collections::VecDeque;
use crate::sync::wait_queue::queue_contains;

verus! {

/// What the calling thread must do after asking for a lock.
#[derive(Clone, Copy, Debug, PartialEq, Eq, Structural)]
pub enum LockAction {
    /// The lock was free and now belongs to the caller.
    Acquired,
    /// The lock is held by someone else: give up the CPU and ask again later.
    Retry,
    /// The caller was queued behind the holder: sleep until an unlock hands
    /// the lock over.
    Block,
}

/// Trait for mutex implementations: a lock owned by at most one thread,
/// named by its id.
pub trait Mutex: Sized {
    /// The thread that holds the lock, if it is held.
    spec fn holder(&self) -> Option<usize>;

    /// The threads queued for the lock, longest waiting first.
    spec fn waiting(&self) -> Seq<usize>;

    /// Lock the mutex on behalf of thread `tid`
    fn lock(&mut self, tid: usize) -> (r: LockAction)
        ensures
            (r == LockAction::Acquired) == (old(self).holder() is None),
            r == LockAction::Acquired ==> final(self).holder() == Some(tid),
            r != LockAction::Acquired ==> final(self).holder() == old(self).holder(),
            final(self).holder() is Some,
    ;

    /// Unlock the mutex held by thread `tid`; returns the thread that now
    /// holds it and must be woken, if any.
    fn unlock(&mut self, tid: usize) -> (woken: Option<usize>)
        requires
            old(self).holder() == Some(tid),
        ensures
            final(self).holder() == woken,
    ;

    /// Check if the mutex is currently locked
    fn is_locked(&self) -> (r: bool)
        ensures
            r == self.holder() is Some,
    ;

    /// Check if the mutex is locked by a specific thread ID
    fn is_locked_by(&self, tid: usize) -> (r: bool)
        ensures
            r == (self.holder() == Some(tid)),
    ;

    /// Check if thread `tid` is queued for the mutex
    fn is_waiting(&self, tid: usize) -> (r: bool)
        ensures
            r == self.waiting().contains(tid),
    ;
}

/// A spin-lock based mutex implementation: a thread that finds it held yields
/// and retries, so nobody is ever queued.
pub struct MutexSpin {
    locked: bool,
    owner: Option<usize>,
}

impl View for MutexSpin {
    /// The thread that holds the lock.
    type V = Option<usize>;

    closed spec fn view(&self) -> Option<usize> {
        self.owner
    }
}

/// The holder after thread `tid` asks for a spin lock held by `holder`, and
/// what the thread must do.
pub open spec fn spin_lock_step(holder: Option<usize>, tid: usize) -> (Option<usize>, LockAction) {
    match holder {
        Some(h) => (Some(h), LockAction::Retry),
        None => (Some(tid), LockAction::Acquired),
    }
}

impl MutexSpin {
    /// The lock flag agrees with the owner.
    #[verifier::type_invariant]
    spec fn consistent(self) -> bool {
        self.locked == self.owner.is_some()
    }

    /// Create a new spin mutex
    pub fn new() -> (m: Self)
        ensures
            m@ is None,
    {
        MutexSpin { locked: false, owner: None }
    }
}

impl Mutex for MutexSpin {
    open spec fn holder(&self) -> Option<usize> {
        self@
    }

    open spec fn waiting(&self) -> Seq<usize> {
        Seq::empty()
    }

    fn lock(&mut self, tid: usize) -> (r: LockAction)
        ensures
            (final(self)@, r) == spin_lock_step(old(self)@, tid),
    {
        proof {
            use_type_invariant(&*self);
        }
        if self.locked {
            LockAction::Retry
        } else {
            *self = MutexSpin { locked: true, owner: Some(tid) };
            LockAction::Acquired
        }
    }

    fn unlock(&mut self, tid: usize) -> (woken: Option<usize>)
        ensures
            woken is None,
            final(self)@ is None,
    {
        *self = MutexSpin { locked: false, owner: None };
        None
    }

    fn is_locked(&self) -> (r: bool) {
        proof {
            use_type_invariant(self);
        }
        self.locked
    }

    fn is_locked_by(&self, tid: usize) -> (r: bool) {
        match self.owner {
            Some(o) => o == tid,
            None => false,
        }
    }

    fn is_waiting(&self, tid: usize) -> (r: bool) {
        false
    }
}

/// The state of a blocking mutex.
pub struct MutexBlockingInner {
    locked: bool,
    wait_queue: VecDeque<usize>,
    owner: Option<usize>,
}

/// A blocking mutex implementation that puts waiting tasks to sleep; an
/// unlock hands the lock straight to the thread that has waited longest.
pub struct MutexBlocking {
    inner: MutexBlockingInner,
}

/// The abstract state of a blocking lock: who holds it and who waits for
/// it, longest waiting first.
pub struct BlockingLockState {
    pub holder: Option<usize>,
    pub waiters: Seq<usize>,
}

impl BlockingLockState {
    /// Nobody waits for a lock that nobody holds.
    pub open spec fn consistent(self) -> bool {
        self.waiters.len() > 0 ==> self.holder.is_some()
    }
}

/// The state after thread `tid` asks for a blocking lock, and what the
/// thread must do.
pub open spec fn blocking_lock_step(s: BlockingLockState, tid: usize) -> (BlockingLockState, LockAction) {
    match s.holder {
        Some(h) => (BlockingLockState { holder: Some(h), waiters: s.waiters.push(tid) }, LockAction::Block),
        None => (BlockingLockState { holder: Some(tid), waiters: s.waiters }, LockAction::Acquired),
    }
}

/// The state after the holder releases a blocking lock, and the thread that
/// receives it.
pub open spec fn blocking_unlock_step(s: BlockingLockState) -> (BlockingLockState, Option<usize>) {
    if s.waiters.len() > 0 {
        (BlockingLockState { holder: Some(s.waiters[0]), waiters: s.waiters.drop_first() }, Some(s.waiters[0]))
    } else {
        (BlockingLockState { holder: None, waiters: s.waiters }, None)
    }
}

impl View for MutexBlocking {
    type V = BlockingLockState;

    closed spec fn view(&self) -> BlockingLockState {
        BlockingLockState { holder: self.inner.owner, waiters: self.inner.wait_queue@ }
    }
}

impl MutexBlocking {
    /// The lock flag agrees with the owner, and nobody waits for a free lock.
    #[verifier::type_invariant]
    spec fn consistent(self) -> bool {
        &&& self.inner.locked == self.inner.owner.is_some()
        &&& self.inner.wait_queue@.len() > 0 ==> self.inner.locked
    }

    /// Create a new blocking mutex
    pub fn new() -> (m: Self)
        ensures
            m@ == (BlockingLockState { holder: None, waiters: Seq::empty() }),
            m@.consistent(),
    {
        MutexBlocking {
            inner: MutexBlockingInner { locked: false, wait_queue: VecDeque::new(), owner: None },
        }
    }
}

impl Mutex for MutexBlocking {
    open spec fn holder(&self) -> Option<usize> {
        self@.holder
    }

    open spec fn waiting(&self) -> Seq<usize> {
        self@.waiters
    }

    fn lock(&mut self, tid: usize) -> (r: LockAction)
        ensures
            (final(self)@, r) == blocking_lock_step(old(self)@, tid),
            final(self)@.consistent(),
    {
        proof {
            use_type_invariant(&*self);
        }
        if self.inner.locked {
            let mut taken = MutexBlocking::new();
            std::mem::swap(&mut taken, self);
            proof {
                use_type_invariant(&taken);
            }
            let MutexBlocking { inner: MutexBlockingInner { locked, mut wait_queue, owner } } = taken;
            wait_queue.push_back(tid);
            *self = MutexBlocking { inner: MutexBlockingInner { locked, wait_queue, owner } };
            LockAction::Block
        } else {
            self.inner = MutexBlockingInner {
                locked: true,
                wait_queue: VecDeque::new(),
                owner: Some(tid),
            };
            assert(self.inner.wait_queue@ =~= old(self).inner.wait_queue@);
            LockAction::Acquired
        }
    }

    fn unlock(&mut self, tid: usize) -> (woken: Option<usize>)
        ensures
            (final(self)@, woken) == blocking_unlock_step(old(self)@),
            final(self)@.consistent(),
    {
        proof {
            use_type_invariant(&*self);
        }
        let mut taken = MutexBlocking::new();
        std::mem::swap(&mut taken, self);
        proof {
            use_type_invariant(&taken);
        }
        let MutexBlocking { inner: MutexBlockingInner { locked, mut wait_queue, owner } } = taken;
        match wait_queue.pop_front() {
            Some(next) => {
                *self = MutexBlocking {
                    inner: MutexBlockingInner { locked, wait_queue, owner: Some(next) },
                };
                Some(next)
            },
            None => {
                *self = MutexBlocking {
                    inner: MutexBlockingInner { locked: false, wait_queue, owner: None },
                };
                None
            },
        }
    }

    fn is_locked(&self) -> (r: bool) {
        proof {
            use_type_invariant(self);
        }
        self.inner.locked
    }

    fn is_locked_by(&self, tid: usize) -> (r: bool) {
        match self.inner.owner {
            Some(o) => o == tid,
            None => false,
        }
    }

    fn is_waiting(&self, tid: usize) -> (r: bool) {
        queue_contains(&self.inner.wait_queue, tid)
    }
}

} // verus!

verus! {

/// A thread that asks for a spin lock someone holds leaves it with its
/// holder; a thread that takes a free spin lock and releases it leaves it free.
pub proof fn lemma_spin_exclusive(holder: Option<usize>, tid: usize)
    ensures
        holder is Some ==> spin_lock_step(holder, tid) == (holder, LockAction::Retry),
        holder is None ==> spin_lock_step(holder, tid) == (Some(tid), LockAction::Acquired),
{
}

/// The state of a blocking lock after `n` releases in a row.
pub open spec fn blocking_unlock_times(s: BlockingLockState, n: nat) -> BlockingLockState
    decreases n,
{
    if n == 0 {
        s
    } else {
        blocking_unlock_times(blocking_unlock_step(s).0, (n - 1) as nat)
    }
}

/// A thread that takes a free blocking lock and releases it leaves the lock
/// as it found it.
pub proof fn lemma_blocking_lock_unlock_restores(s: BlockingLockState, tid: usize)
    requires
        s.consistent(),
        s.holder is None,
    ensures
        blocking_lock_step(s, tid).1 == LockAction::Acquired,
        blocking_unlock_step(blocking_lock_step(s, tid).0) == (s, None::<usize>),
{
}

/// Both steps of a blocking lock keep it consistent: the lock is never free
/// while a thread waits for it.
pub proof fn lemma_blocking_steps_consistent(s: BlockingLockState, tid: usize)
    requires
        s.consistent(),
    ensures
        blocking_lock_step(s, tid).0.consistent(),
        s.holder is Some ==> blocking_unlock_step(s).0.consistent(),
{
}

/// Waiters receive a blocking lock in the order in which they asked for it:
/// the `i`-th release hands it to the `i`-th waiter, and the release after the
/// last waiter frees it.
pub proof fn lemma_blocking_fifo(s: BlockingLockState)
    requires
        s.consistent(),
    ensures
        forall|i: int|
            0 <= i < s.waiters.len() ==> #[trigger] blocking_unlock_times(s, (i + 1) as nat).holder
                == Some(s.waiters[i]),
        blocking_unlock_times(s, s.waiters.len() + 1).holder is None,
        blocking_unlock_times(s, s.waiters.len() + 1).waiters.len() == 0,
{
    lemma_unlock_times_prefix(s, s.waiters.len());
    lemma_unlock_times_split(s, s.waiters.len());
    assert forall|i: int| 0 <= i < s.waiters.len() implies
        #[trigger] blocking_unlock_times(s, (i + 1) as nat).holder == Some(s.waiters[i]) by {
        lemma_unlock_times_prefix(s, (i + 1) as nat);
    }
}

proof fn lemma_unlock_times_split(s: BlockingLockState, n: nat)
    ensures
        blocking_unlock_times(s, n + 1) == blocking_unlock_step(blocking_unlock_times(s, n)).0,
    decreases n,
{
    reveal_with_fuel(blocking_unlock_times, 2);
    if n > 0 {
        lemma_unlock_times_split(blocking_unlock_step(s).0, (n - 1) as nat);
    }
}

proof fn lemma_unlock_times_prefix(s: BlockingLockState, n: nat)
    requires
        n <= s.waiters.len(),
    ensures
        blocking_unlock_times(s, n).waiters == s.waiters.skip(n as int),
        n > 0 ==> blocking_unlock_times(s, n).holder == Some(s.waiters[n - 1]),
    decreases n,
{
    if n == 0 {
        assert(s.waiters.skip(0) =~= s.waiters);
    } else {
        lemma_unlock_times_prefix(s, (n - 1) as nat);
        lemma_unlock_times_split(s, (n - 1) as nat);
        let t = blocking_unlock_times(s, (n - 1) as nat);
        assert(t.waiters.drop_first() =~= s.waiters.skip(n as int));
    }
}

} // verus!

verus! {

/// The state of a blocking lock after the threads `ws` ask for it, in order.
pub open spec fn blocking_lock_each(s: BlockingLockState, ws: Seq<usize>) -> BlockingLockState
    decreases ws.len(),
{
    if ws.len() == 0 {
        s
    } else {
        blocking_lock_each(blocking_lock_step(s, ws[0]).0, ws.drop_first())
    }
}

proof fn lemma_lock_each_held(s: BlockingLockState, ws: Seq<usize>)
    requires
        s.holder is Some,
    ensures
        blocking_lock_each(s, ws).holder == s.holder,
        blocking_lock_each(s, ws).waiters == s.waiters + ws,
    decreases ws.len(),
{
    if ws.len() > 0 {
        let next = blocking_lock_step(s, ws[0]).0;
        lemma_lock_each_held(next, ws.drop_first());
        assert(next.waiters + ws.drop_first() =~= s.waiters + ws);
    }
}

/// First come, first served: when threads `ws` ask in turn for a held
/// blocking lock, each of them is made to sleep, and once the threads that
/// waited before them have had it, the releases hand the lock to `ws[0]`,
/// `ws[1]`, ... in the order in which they asked.
pub proof fn lemma_blocking_first_come_first_served(s: BlockingLockState, ws: Seq<usize>)
    requires
        s.holder is Some,
    ensures
        forall|k: int|
            0 <= k < ws.len() ==> #[trigger] blocking_lock_step(
                blocking_lock_each(s, ws.take(k)),
                ws[k],
            ).1 == LockAction::Block,
        forall|k: int|
            0 <= k < ws.len() ==> #[trigger] blocking_unlock_times(
                blocking_lock_each(s, ws),
                (s.waiters.len() + k + 1) as nat,
            ).holder == Some(ws[k]),
{
    lemma_lock_each_held(s, ws);
    let t = blocking_lock_each(s, ws);
    assert(t.consistent());
    lemma_blocking_fifo(t);
    assert forall|k: int| 0 <= k < ws.len() implies #[trigger] blocking_lock_step(
        blocking_lock_each(s, ws.take(k)),
        ws[k],
    ).1 == LockAction::Block by {
        lemma_lock_each_held(s, ws.take(k));
    }
    assert forall|k: int| 0 <= k < ws.len() implies #[trigger] blocking_unlock_times(
        t,
        (s.waiters.len() + k + 1) as nat,
    ).holder == Some(ws[k]) by {
        assert(t.waiters[s.waiters.len() + k] == ws[k]);
    }
}

} // verus!
