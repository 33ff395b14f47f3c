use vstd::prelude::*;
use std::collections::VecDeque;
use crate::sync::wait_queue::queue_contains;

verus! {

/// The mutable part of a semaphore.
pub struct SemaphoreInner {
    /// Units left; when negative, minus the number of threads waiting.
    pub count: isize,
    /// The threads waiting for a unit, longest waiting first.
    pub wait_queue: VecDeque<usize>,
}

/// A counting semaphore whose waiters sleep in a queue.
pub struct Semaphore {
    /// The count and the queue.
    pub inner: SemaphoreInner,
    max_value: usize,
}

/// The abstract state of a semaphore: its count and its waiters, longest
/// waiting first.
pub struct SemaphoreState {
    pub count: int,
    pub waiters: Seq<usize>,
    /// The number of units the semaphore was made with.
    pub capacity: usize,
}

impl SemaphoreState {
    /// Exactly as many threads wait as the count is below zero.
    pub open spec fn balanced(self) -> bool {
        self.waiters.len() == (if self.count < 0 { -self.count } else { 0int })
    }
}

/// The units a count leaves available: the count, or none when it is not
/// positive.
pub open spec fn units_available(count: int) -> int {
    if count > 0 {
        count
    } else {
        0
    }
}

/// The state after one unit is given back, and the thread woken to take it.
pub open spec fn semaphore_up_step(s: SemaphoreState) -> (SemaphoreState, Option<usize>) {
    let c = s.count + 1;
    if c <= 0 && s.waiters.len() > 0 {
        (SemaphoreState { waiters: s.waiters.drop_first(), count: c, ..s }, Some(s.waiters[0]))
    } else {
        (SemaphoreState { count: c, ..s }, None)
    }
}

/// The state after thread `tid` takes one unit, and whether it must sleep.
pub open spec fn semaphore_down_step(s: SemaphoreState, tid: usize) -> (SemaphoreState, bool) {
    let c = s.count - 1;
    if c < 0 {
        (SemaphoreState { count: c, waiters: s.waiters.push(tid), ..s }, true)
    } else {
        (SemaphoreState { count: c, ..s }, false)
    }
}

impl View for Semaphore {
    type V = SemaphoreState;

    closed spec fn view(&self) -> SemaphoreState {
        SemaphoreState {
            count: self.inner.count as int,
            waiters: self.inner.wait_queue@,
            capacity: self.max_value,
        }
    }
}

impl Semaphore {
    /// A semaphore holding `res_count` units, with nobody waiting.
    pub fn new(res_count: usize) -> (s: Self)
        ensures
            s@.count == (res_count as isize) as int,
            s@.waiters == Seq::<usize>::empty(),
            s@.capacity == res_count,
            res_count <= isize::MAX ==> s@.count == res_count && s@.balanced(),
    {
        Semaphore {
            inner: SemaphoreInner { count: res_count as isize, wait_queue: VecDeque::new() },
            max_value: res_count,
        }
    }

    /// Give back one unit; returns the waiting thread to wake, if any.
    pub fn up(&mut self) -> (woken: Option<usize>)
        requires
            old(self)@.count < isize::MAX,
        ensures
            (final(self)@, woken) == semaphore_up_step(old(self)@),
            old(self)@.balanced() ==> final(self)@.balanced(),
    {
        self.inner.count = self.inner.count + 1;
        if self.inner.count <= 0 {
            if let Some(task) = self.inner.wait_queue.pop_front() {
                return Some(task);
            }
        }
        None
    }

    /// Take one unit for thread `tid`; returns whether the thread was queued
    /// and must sleep until an `up` wakes it.
    pub fn down(&mut self, tid: usize) -> (blocked: bool)
        requires
            old(self)@.count > isize::MIN,
        ensures
            (final(self)@, blocked) == semaphore_down_step(old(self)@, tid),
            old(self)@.balanced() ==> final(self)@.balanced(),
    {
        self.inner.count = self.inner.count - 1;
        if self.inner.count < 0 {
            self.inner.wait_queue.push_back(tid);
            true
        } else {
            false
        }
    }

    /// The units available now.
    pub fn current_value(&self) -> (v: usize)
        ensures
            v == units_available(self@.count),
    {
        if self.inner.count > 0 {
            self.inner.count as usize
        } else {
            0
        }
    }

    /// The count always fits in an `isize`.
    pub proof fn lemma_count_fits(&self)
        ensures
            isize::MIN <= self@.count <= isize::MAX,
    {
    }

    /// Whether thread `tid` is queued for a unit.
    pub fn is_waiting(&self, tid: usize) -> (r: bool)
        ensures
            r == self@.waiters.contains(tid),
    {
        queue_contains(&self.inner.wait_queue, tid)
    }

    /// The number of units the semaphore was made with.
    pub fn max_value(&self) -> (v: usize)
        ensures
            v == self@.capacity,
    {
        self.max_value
    }
}

/// Both operations keep a semaphore balanced: the threads asleep on it are
/// exactly as many as its count is below zero.
pub proof fn lemma_semaphore_steps_balanced(s: SemaphoreState, tid: usize)
    requires
        s.balanced(),
    ensures
        semaphore_up_step(s).0.balanced(),
        semaphore_down_step(s, tid).0.balanced(),
        semaphore_up_step(s).1 is Some <==> s.count < 0,
{
}

/// Taking a unit and giving it back restores the count; when nobody else
/// waits, it restores the whole state, and a thread that had to sleep is the
/// one woken.
pub proof fn lemma_semaphore_down_up(s: SemaphoreState, tid: usize)
    requires
        s.balanced(),
    ensures
        semaphore_up_step(semaphore_down_step(s, tid).0).0.count == s.count,
        s.waiters.len() == 0 ==> semaphore_up_step(semaphore_down_step(s, tid).0).0 == s,
        s.waiters.len() == 0 ==> (semaphore_up_step(semaphore_down_step(s, tid).0).1 is Some
            <==> semaphore_down_step(s, tid).1),
        s.waiters.len() == 0 && semaphore_down_step(s, tid).1 ==> semaphore_up_step(
            semaphore_down_step(s, tid).0,
        ).1 == Some(tid),
{
    if s.waiters.len() == 0 {
        if s.count - 1 < 0 {
            assert(s.waiters.push(tid).drop_first() =~= s.waiters);
        }
    }
}

/// While a unit is free, taking it and giving it back changes nothing: the
/// taker does not sleep and nobody is woken.
pub proof fn lemma_semaphore_take_give_back(s: SemaphoreState, tid: usize)
    requires
        s.count >= 1,
    ensures
        !semaphore_down_step(s, tid).1,
        semaphore_up_step(semaphore_down_step(s, tid).0) == (s, None::<usize>),
{
}

/// One operation on a semaphore.
pub enum SemaphoreOp {
    /// Give back a unit.
    Up,
    /// Take a unit for a thread.
    Down(usize),
}

/// The state after the operations `ops`, in order.
pub open spec fn semaphore_run(s: SemaphoreState, ops: Seq<SemaphoreOp>) -> SemaphoreState
    decreases ops.len(),
{
    if ops.len() == 0 {
        s
    } else {
        let next = match ops[0] {
            SemaphoreOp::Up => semaphore_up_step(s).0,
            SemaphoreOp::Down(tid) => semaphore_down_step(s, tid).0,
        };
        semaphore_run(next, ops.drop_first())
    }
}

/// Any run of ups and downs keeps a balanced semaphore balanced, and never
/// changes its capacity, even when the count rises above it.
pub proof fn lemma_semaphore_run(s: SemaphoreState, ops: Seq<SemaphoreOp>)
    requires
        s.balanced(),
    ensures
        semaphore_run(s, ops).balanced(),
        semaphore_run(s, ops).capacity == s.capacity,
    decreases ops.len(),
{
    if ops.len() > 0 {
        let next = match ops[0] {
            SemaphoreOp::Up => semaphore_up_step(s).0,
            SemaphoreOp::Down(tid) => semaphore_down_step(s, tid).0,
        };
        match ops[0] {
            SemaphoreOp::Up => lemma_semaphore_steps_balanced(s, 0),
            SemaphoreOp::Down(tid) => lemma_semaphore_steps_balanced(s, tid),
        }
        lemma_semaphore_run(next, ops.drop_first());
    }
}

/// A thread is woken only when one asleep on the semaphore exists, and it is
/// the one that has waited longest.
pub proof fn lemma_semaphore_wakes_longest_waiting(s: SemaphoreState)
    requires
        s.balanced(),
        s.count < 0,
    ensures
        semaphore_up_step(s).1 == Some(s.waiters[0]),
        semaphore_up_step(s).0.waiters == s.waiters.drop_first(),
{
}

} // verus!

verus! {

/// The state after the threads `ts` each take a unit, in order.
pub open spec fn semaphore_down_each(s: SemaphoreState, ts: Seq<usize>) -> SemaphoreState
    decreases ts.len(),
{
    if ts.len() == 0 {
        s
    } else {
        semaphore_down_each(semaphore_down_step(s, ts[0]).0, ts.drop_first())
    }
}

/// The state after `n` units are given back in a row.
pub open spec fn semaphore_up_times(s: SemaphoreState, n: nat) -> SemaphoreState
    decreases n,
{
    if n == 0 {
        s
    } else {
        semaphore_up_times(semaphore_up_step(s).0, (n - 1) as nat)
    }
}

proof fn lemma_down_each_sleeps(s: SemaphoreState, ts: Seq<usize>)
    requires
        s.count <= 0,
    ensures
        semaphore_down_each(s, ts).count == s.count - ts.len(),
        semaphore_down_each(s, ts).waiters == s.waiters + ts,
        semaphore_down_each(s, ts).capacity == s.capacity,
    decreases ts.len(),
{
    if ts.len() > 0 {
        let next = semaphore_down_step(s, ts[0]).0;
        lemma_down_each_sleeps(next, ts.drop_first());
        assert(next.waiters + ts.drop_first() =~= s.waiters + ts);
    }
}

proof fn lemma_up_times_split(s: SemaphoreState, n: nat)
    ensures
        semaphore_up_times(s, n + 1) == semaphore_up_step(semaphore_up_times(s, n)).0,
    decreases n,
{
    reveal_with_fuel(semaphore_up_times, 2);
    if n > 0 {
        lemma_up_times_split(semaphore_up_step(s).0, (n - 1) as nat);
    }
}

proof fn lemma_up_times_wakes(s: SemaphoreState, n: nat)
    requires
        s.balanced(),
        n <= s.waiters.len(),
    ensures
        semaphore_up_times(s, n).count == s.count + n,
        semaphore_up_times(s, n).waiters == s.waiters.skip(n as int),
    decreases n,
{
    if n == 0 {
        assert(s.waiters.skip(0) =~= s.waiters);
    } else {
        lemma_up_times_wakes(s, (n - 1) as nat);
        lemma_up_times_split(s, (n - 1) as nat);
        let t = semaphore_up_times(s, (n - 1) as nat);
        assert(t.waiters.drop_first() =~= s.waiters.skip(n as int));
    }
}

/// Sleepers are woken in the order in which they went to sleep: when the
/// threads `ts` in turn take a unit from a semaphore with none to spare, each
/// of them sleeps, and once the threads that slept before them are woken,
/// the following gives-back wake `ts[0]`, `ts[1]`, ... in that order.
pub proof fn lemma_semaphore_first_come_first_served(s: SemaphoreState, ts: Seq<usize>)
    requires
        s.balanced(),
        s.count <= 0,
    ensures
        forall|k: int|
            0 <= k < ts.len() ==> #[trigger] semaphore_down_step(
                semaphore_down_each(s, ts.take(k)),
                ts[k],
            ).1,
        forall|k: int|
            0 <= k < ts.len() ==> #[trigger] semaphore_up_step(
                semaphore_up_times(semaphore_down_each(s, ts), (s.waiters.len() + k) as nat),
            ).1 == Some(ts[k]),
{
    lemma_down_each_sleeps(s, ts);
    let t = semaphore_down_each(s, ts);
    assert forall|k: int| 0 <= k < ts.len() implies #[trigger] semaphore_down_step(
        semaphore_down_each(s, ts.take(k)),
        ts[k],
    ).1 by {
        lemma_down_each_sleeps(s, ts.take(k));
    }
    assert forall|k: int| 0 <= k < ts.len() implies #[trigger] semaphore_up_step(
        semaphore_up_times(t, (s.waiters.len() + k) as nat),
    ).1 == Some(ts[k]) by {
        lemma_up_times_wakes(t, (s.waiters.len() + k) as nat);
        assert(t.waiters[s.waiters.len() + k] == ts[k]);
    }
}

} // verus!
