//! Deadlock checks run before a thread waits on a lock or a semaphore, by the
//! banker's algorithm: a request is refused when, with it added to what the
//! process's threads already wait for, no order lets every thread finish.

use vstd::prelude::*;
use crate::sync::mutex::Mutex;
use crate::sync::semaphore::{Semaphore, units_available};
use crate::task::banker::{
    is_safe, is_safe_sequence, is_unsafe, rows, work_after, fits, lemma_held_by_zero,
    lemma_held_by_at_least, lemma_held_by_nonneg,
};
use crate::task::process::{ProcessControlBlockInner, ThreadEntry};

verus! {

/// The id of the thread in slot `i`, if the slot holds a started thread.
pub open spec fn slot_tid(tasks: Seq<Option<ThreadEntry>>, i: int) -> Option<usize> {
    match tasks[i] {
        Some(e) => match e.res {
            Some(r) => Some(r.tid),
            None => None,
        },
        None => None,
    }
}

/// Which slots hold a thread.
pub open spec fn live_slots(tasks: Seq<Option<ThreadEntry>>) -> Seq<bool> {
    Seq::new(tasks.len(), |i: int| tasks[i] is Some)
}

/// 1 when `c` holds, else 0.
pub open spec fn one_if(c: bool) -> usize {
    if c {
        1
    } else {
        0
    }
}

/// Whether the thread with id `tid` is the one that asks.
pub open spec fn asks(tid: Option<usize>, requesting_tid: usize) -> bool {
    tid == Some(requesting_tid)
}

// ---- locks ----

/// Free locks: one unit for each lock that nobody holds.
pub open spec fn mutex_available<M: Mutex>(list: Seq<Option<M>>) -> Seq<usize> {
    Seq::new(list.len(), |j: int| one_if(list[j] is Some && list[j].unwrap().holder() is None))
}

/// Which lock each thread holds.
pub open spec fn mutex_allocation<M: Mutex>(
    tasks: Seq<Option<ThreadEntry>>,
    list: Seq<Option<M>>,
) -> Seq<Seq<usize>> {
    Seq::new(
        tasks.len(),
        |i: int|
            Seq::new(
                list.len(),
                |j: int|
                    one_if(
                        slot_tid(tasks, i) is Some && list[j] is Some && list[j].unwrap().holder()
                            == slot_tid(tasks, i),
                    ),
            ),
    )
}

/// Which lock each thread waits for, the request included.
pub open spec fn mutex_need<M: Mutex>(
    tasks: Seq<Option<ThreadEntry>>,
    list: Seq<Option<M>>,
    requesting_tid: usize,
    requesting_mutex_id: int,
) -> Seq<Seq<usize>> {
    Seq::new(
        tasks.len(),
        |i: int|
            Seq::new(
                list.len(),
                |j: int|
                    (one_if(
                        slot_tid(tasks, i) is Some && list[j] is Some && list[j].unwrap().waiting().contains(
                            slot_tid(tasks, i).unwrap(),
                        ),
                    ) + one_if(asks(slot_tid(tasks, i), requesting_tid) && j == requesting_mutex_id)) as usize,
            ),
    )
}

/// Whether waiting for lock `id` would deadlock the process: the lock
/// exists, and either the requesting thread holds it already, or with the
/// request added no order lets every thread finish.
pub open spec fn mutex_request_deadlocks<M: Mutex>(
    pcb: ProcessControlBlockInner<M>,
    requesting_tid: usize,
    id: int,
) -> bool {
    &&& 0 <= id < pcb.mutex_list@.len()
    &&& pcb.mutex_list@[id] is Some
    &&& pcb.mutex_list@[id].unwrap().holder() == Some(requesting_tid) || !is_safe(
        mutex_available(pcb.mutex_list@),
        mutex_allocation(pcb.tasks@, pcb.mutex_list@),
        mutex_need(pcb.tasks@, pcb.mutex_list@, requesting_tid, id),
        live_slots(pcb.tasks@),
    )
}

/// A thread that asks again for a lock it holds waits for itself: the check
/// reports a deadlock, whatever the process's thread table says.
pub proof fn lemma_relock_is_deadlock<M: Mutex>(
    pcb: ProcessControlBlockInner<M>,
    tid: usize,
    id: int,
)
    requires
        0 <= id < pcb.mutex_list@.len(),
        pcb.mutex_list@[id] is Some,
        pcb.mutex_list@[id].unwrap().holder() == Some(tid),
    ensures
        mutex_request_deadlocks(pcb, tid, id),
{
}

/// The banker's check agrees with the self-wait rule when the requester is
/// a started thread, alone with its id: even without that rule, the matrices
/// alone find the request unsafe.
pub proof fn lemma_relock_is_unsafe<M: Mutex>(
    pcb: ProcessControlBlockInner<M>,
    tid: usize,
    id: int,
    slot: int,
)
    requires
        0 <= id < pcb.mutex_list@.len(),
        pcb.mutex_list@[id] is Some,
        pcb.mutex_list@[id].unwrap().holder() == Some(tid),
        0 <= slot < pcb.tasks@.len(),
        slot_tid(pcb.tasks@, slot) == Some(tid),
        forall|x: int| 0 <= x < pcb.tasks@.len() && x != slot ==> slot_tid(pcb.tasks@, x) != Some(tid),
    ensures
        !is_safe(
            mutex_available(pcb.mutex_list@),
            mutex_allocation(pcb.tasks@, pcb.mutex_list@),
            mutex_need(pcb.tasks@, pcb.mutex_list@, tid, id),
            live_slots(pcb.tasks@),
        ),
{
    let list = pcb.mutex_list@;
    let tasks = pcb.tasks@;
    let avail = mutex_available(list);
    let alloc = mutex_allocation(tasks, list);
    let need = mutex_need(tasks, list, tid, id);
    let live = live_slots(tasks);
    if is_safe(avail, alloc, need, live) {
        let s = choose|s: Seq<int>| is_safe_sequence(avail, alloc, need, live, s);
        assert(live[slot]);
        assert(s.contains(slot));
        let p = choose|p: int| 0 <= p < s.len() && s[p] == slot;
        let before = s.subrange(0, p).to_set();
        assert forall|x: int| 0 <= x < alloc.len() && before.contains(x) implies alloc[x][id] == 0 by {
            let q = choose|q: int| 0 <= q < p && s.subrange(0, p)[q] == x;
            assert(s[q] == x);
            assert(x != slot);
        }
        lemma_held_by_zero(alloc, before, alloc.len() as int, id);
        assert(fits(need[s[p]], work_after(avail, alloc, before)));
        assert(need[slot][id] >= 1);
        assert(work_after(avail, alloc, before)[id] == 0);
    }
}


/// The live slots below `n` other than `skip`, in increasing order.
pub open spec fn slots_except(live: Seq<bool>, skip: int, n: int) -> Seq<int>
    decreases n,
{
    if n <= 0 {
        Seq::empty()
    } else if live[n - 1] && n - 1 != skip {
        slots_except(live, skip, n - 1).push(n - 1)
    } else {
        slots_except(live, skip, n - 1)
    }
}

proof fn lemma_slots_except(live: Seq<bool>, skip: int, n: int)
    requires
        0 <= n <= live.len(),
    ensures
        forall|k: int|
            0 <= k < slots_except(live, skip, n).len() ==> 0 <= #[trigger] slots_except(live, skip, n)[k]
                < n && live[slots_except(live, skip, n)[k]] && slots_except(live, skip, n)[k] != skip,
        forall|a: int, b: int|
            0 <= a < b < slots_except(live, skip, n).len() ==> #[trigger] slots_except(live, skip, n)[a]
                < #[trigger] slots_except(live, skip, n)[b],
        forall|t: int| 0 <= t < n && live[t] && t != skip ==> slots_except(live, skip, n).contains(t),
    decreases n,
{
    if n > 0 {
        lemma_slots_except(live, skip, n - 1);
        let prev = slots_except(live, skip, n - 1);
        if live[n - 1] && n - 1 != skip {
            let cur = prev.push(n - 1);
            assert(cur.len() == prev.len() + 1);
            assert forall|t: int| 0 <= t < n && live[t] && t != skip implies cur.contains(t) by {
                if t == n - 1 {
                    assert(cur[prev.len() as int] == t);
                } else {
                    let k = choose|k: int| 0 <= k < prev.len() && prev[k] == t;
                    assert(cur[k] == t);
                }
            }
        }
    }
}

/// A lock's waiters are the only threads that need it: when the thread
/// holding lock `id` can run on (it waits for nothing), and nobody waits for
/// any other lock, a request for lock `id` by another thread, which does not
/// already wait for it, is never a deadlock, however many threads are queued
/// on the lock. The holder finishes and releases it, then each waiter in
/// turn gets it.
pub proof fn lemma_waiting_behind_a_running_holder_is_safe<M: Mutex>(
    pcb: ProcessControlBlockInner<M>,
    tid: usize,
    id: int,
    holder_slot: int,
)
    requires
        0 <= id < pcb.mutex_list@.len(),
        pcb.mutex_list@[id] is Some,
        0 <= holder_slot < pcb.tasks@.len(),
        slot_tid(pcb.tasks@, holder_slot) is Some,
        pcb.mutex_list@[id].unwrap().holder() == slot_tid(pcb.tasks@, holder_slot),
        slot_tid(pcb.tasks@, holder_slot) != Some(tid),
        !pcb.mutex_list@[id].unwrap().waiting().contains(slot_tid(pcb.tasks@, holder_slot).unwrap()),
        !pcb.mutex_list@[id].unwrap().waiting().contains(tid),
        forall|i: int, j: int|
            0 <= i < pcb.tasks@.len() && 0 <= j < pcb.mutex_list@.len() && j != id
                && #[trigger] slot_tid(pcb.tasks@, i) is Some && #[trigger] pcb.mutex_list@[j] is Some
                ==> !pcb.mutex_list@[j].unwrap().waiting().contains(slot_tid(pcb.tasks@, i).unwrap()),
    ensures
        !mutex_request_deadlocks(pcb, tid, id),
{
    let list = pcb.mutex_list@;
    let tasks = pcb.tasks@;
    let avail = mutex_available(list);
    let alloc = mutex_allocation(tasks, list);
    let need = mutex_need(tasks, list, tid, id);
    let live = live_slots(tasks);
    let n = tasks.len() as int;
    let hs = holder_slot;
    lemma_slots_except(live, hs, n);
    let rest = slots_except(live, hs, n);
    let order = seq![hs] + rest;
    assert(order.no_duplicates()) by {
        assert forall|a: int, b: int| 0 <= a < b < order.len() implies order[a] != order[b] by {
            if a > 0 {
                assert(rest[a - 1] < rest[b - 1]);
            } else {
                assert(rest[b - 1] != hs);
            }
        }
    }
    assert forall|k: int| 0 <= k < order.len() implies 0 <= #[trigger] order[k] < live.len()
        && live[order[k]] by {
        if k > 0 {
            assert(order[k] == rest[k - 1]);
        }
    }
    assert forall|t: int| 0 <= t < live.len() && #[trigger] live[t] implies order.contains(t) by {
        if t == hs {
            assert(order[0] == t);
        } else {
            let k = choose|k: int| 0 <= k < rest.len() && rest[k] == t;
            assert(order[k + 1] == t);
        }
    }
    assert forall|k: int| 0 <= k < order.len() implies fits(
        need[#[trigger] order[k]],
        work_after(avail, alloc, order.subrange(0, k).to_set()),
    ) by {
        let t = order[k];
        let done = order.subrange(0, k).to_set();
        assert forall|j: int| 0 <= j < need[t].len() implies need[t][j] <= #[trigger] work_after(
            avail,
            alloc,
            done,
        )[j] by {
            lemma_held_by_nonneg(alloc, done, alloc.len() as int, j);
            if j != id {
                if slot_tid(tasks, t) is Some && list[j] is Some {
                    assert(!list[j].unwrap().waiting().contains(slot_tid(tasks, t).unwrap()));
                }
                assert(need[t][j] == 0);
            } else if k == 0 {
                assert(t == hs);
                assert(need[t][j] == 0);
            } else {
                assert(order.subrange(0, k)[0] == hs);
                assert(done.contains(hs));
                lemma_held_by_at_least(alloc, done, alloc.len() as int, j, hs);
                assert(alloc[hs][j] == 1);
                assert(need[t][j] <= 1);
            }
        }
    }
    assert(is_safe_sequence(avail, alloc, need, live, order));
}

// ---- semaphores ----

/// The units available in a semaphore slot; none in an empty slot.
pub open spec fn semaphore_units(s: Option<Semaphore>) -> int {
    match s {
        Some(x) => units_available(x@.count),
        None => 0,
    }
}

/// Free units of each semaphore.
pub open spec fn semaphore_available(list: Seq<Option<Semaphore>>) -> Seq<usize> {
    Seq::new(list.len(), |j: int| semaphore_units(list[j]) as usize)
}

/// The units of semaphore `j` that thread `tid` holds.
pub open spec fn units_held(held: Seq<Vec<usize>>, tid: Option<usize>, j: int) -> usize {
    match tid {
        Some(t) => if t < held.len() && j < held[t as int]@.len() {
            held[t as int]@[j]
        } else {
            0
        },
        None => 0,
    }
}

/// The units of each semaphore that each thread holds.
pub open spec fn semaphore_allocation(
    tasks: Seq<Option<ThreadEntry>>,
    held: Seq<Vec<usize>>,
    num_sems: int,
) -> Seq<Seq<usize>> {
    Seq::new(tasks.len(), |i: int| Seq::new(num_sems as nat, |j: int| units_held(held, slot_tid(tasks, i), j)))
}

/// The units of each semaphore that each thread waits for, the request
/// included.
pub open spec fn semaphore_need(
    tasks: Seq<Option<ThreadEntry>>,
    list: Seq<Option<Semaphore>>,
    requesting_tid: usize,
    requesting_sem_id: int,
) -> Seq<Seq<usize>> {
    Seq::new(
        tasks.len(),
        |i: int|
            Seq::new(
                list.len(),
                |j: int|
                    (one_if(
                        slot_tid(tasks, i) is Some && list[j] is Some && list[j].unwrap()@.waiters.contains(
                            slot_tid(tasks, i).unwrap(),
                        ),
                    ) + one_if(asks(slot_tid(tasks, i), requesting_tid) && j == requesting_sem_id)) as usize,
            ),
    )
}

/// Whether waiting for a unit of semaphore `id` would deadlock the process:
/// the id is in the list, and with the request added no order lets every
/// thread finish. A freed slot counts as a semaphore with no units.
pub open spec fn semaphore_request_deadlocks<M>(
    pcb: ProcessControlBlockInner<M>,
    requesting_tid: usize,
    id: int,
) -> bool {
    &&& 0 <= id < pcb.semaphore_list@.len()
    &&& !is_safe(
        semaphore_available(pcb.semaphore_list@),
        semaphore_allocation(pcb.tasks@, pcb.semaphore_allocation@, pcb.semaphore_list@.len() as int),
        semaphore_need(pcb.tasks@, pcb.semaphore_list@, requesting_tid, id),
        live_slots(pcb.tasks@),
    )
}

// ---- shared building blocks ----

fn thread_id(tasks: &Vec<Option<ThreadEntry>>, i: usize) -> (r: Option<usize>)
    requires
        i < tasks@.len(),
    ensures
        r == slot_tid(tasks@, i as int),
{
    match &tasks[i] {
        Some(e) => match &e.res {
            Some(res) => Some(res.tid),
            None => None,
        },
        None => None,
    }
}

fn live_vector(tasks: &Vec<Option<ThreadEntry>>) -> (live: Vec<bool>)
    ensures
        live@ == live_slots(tasks@),
{
    let mut live: Vec<bool> = Vec::new();
    let mut i: usize = 0;
    while i < tasks.len()
        invariant
            i <= tasks@.len(),
            live@.len() == i,
            forall|k: int| 0 <= k < i ==> live@[k] == (tasks@[k] is Some),
        decreases tasks@.len() - i,
    {
        live.push(tasks[i].is_some());
        i += 1;
    }
    assert(live@ =~= live_slots(tasks@));
    live
}

/// Build the matrices of what each thread holds and what it waits for, one
/// row per thread slot and one column per resource, from `cell`, which gives
/// both entries of one slot and one resource.
fn build_matrices<F: Fn(usize, usize) -> (usize, usize)>(
    num_tasks: usize,
    width: usize,
    cell: F,
    Ghost(alloc_spec): Ghost<Seq<Seq<usize>>>,
    Ghost(need_spec): Ghost<Seq<Seq<usize>>>,
) -> (r: (Vec<Vec<usize>>, Vec<Vec<usize>>))
    requires
        alloc_spec.len() == num_tasks,
        need_spec.len() == num_tasks,
        forall|i: int| 0 <= i < num_tasks ==> #[trigger] alloc_spec[i].len() == width,
        forall|i: int| 0 <= i < num_tasks ==> #[trigger] need_spec[i].len() == width,
        forall|i: usize, j: usize| i < num_tasks && j < width ==> #[trigger] cell.requires((i, j)),
        forall|i: usize, j: usize, c: (usize, usize)|
            i < num_tasks && j < width && #[trigger] cell.ensures((i, j), c) ==> c.0 == alloc_spec[i as int][j as int]
                && c.1 == need_spec[i as int][j as int],
    ensures
        r.0@.len() == num_tasks,
        r.1@.len() == num_tasks,
        rows(r.0@) == alloc_spec,
        rows(r.1@) == need_spec,
{
    let mut allocation: Vec<Vec<usize>> = Vec::new();
    let mut need: Vec<Vec<usize>> = Vec::new();
    let mut i: usize = 0;
    while i < num_tasks
        invariant
            i <= num_tasks,
            alloc_spec.len() == num_tasks,
            need_spec.len() == num_tasks,
            forall|t: int| 0 <= t < num_tasks ==> #[trigger] alloc_spec[t].len() == width,
            forall|t: int| 0 <= t < num_tasks ==> #[trigger] need_spec[t].len() == width,
            forall|a: usize, b: usize| a < num_tasks && b < width ==> #[trigger] cell.requires((a, b)),
            forall|a: usize, b: usize, c: (usize, usize)|
                a < num_tasks && b < width && #[trigger] cell.ensures((a, b), c) ==> c.0
                    == alloc_spec[a as int][b as int] && c.1 == need_spec[a as int][b as int],
            allocation@.len() == i,
            need@.len() == i,
            forall|k: int| 0 <= k < i ==> #[trigger] allocation@[k]@ == alloc_spec[k],
            forall|k: int| 0 <= k < i ==> #[trigger] need@[k]@ == need_spec[k],
        decreases num_tasks - i,
    {
        let mut arow: Vec<usize> = Vec::new();
        let mut nrow: Vec<usize> = Vec::new();
        let mut j: usize = 0;
        while j < width
            invariant
                j <= width,
                i < num_tasks,
                alloc_spec[i as int].len() == width,
                need_spec[i as int].len() == width,
                forall|a: usize, b: usize| a < num_tasks && b < width ==> #[trigger] cell.requires((a, b)),
                forall|a: usize, b: usize, c: (usize, usize)|
                    a < num_tasks && b < width && #[trigger] cell.ensures((a, b), c) ==> c.0
                        == alloc_spec[a as int][b as int] && c.1 == need_spec[a as int][b as int],
                arow@.len() == j,
                nrow@.len() == j,
                forall|q: int| 0 <= q < j ==> arow@[q] == alloc_spec[i as int][q],
                forall|q: int| 0 <= q < j ==> nrow@[q] == need_spec[i as int][q],
            decreases width - j,
        {
            let c = cell(i, j);
            arow.push(c.0);
            nrow.push(c.1);
            j += 1;
        }
        assert(arow@ =~= alloc_spec[i as int]);
        assert(nrow@ =~= need_spec[i as int]);
        allocation.push(arow);
        need.push(nrow);
        i += 1;
    }
    assert(rows(allocation@) =~= alloc_spec);
    assert(rows(need@) =~= need_spec);
    (allocation, need)
}

/// Detects if granting a mutex lock request would cause a deadlock using the banker's algorithm.
/// Returns true if deadlock would occur, false otherwise.
pub fn detect_deadlock_mutex<M: Mutex>(
    pcb_inner: &ProcessControlBlockInner<M>,
    requesting_tid: usize,
    requesting_mutex_id: usize,
) -> (r: bool)
    ensures
        r == mutex_request_deadlocks(*pcb_inner, requesting_tid, requesting_mutex_id as int),
{
    let mutexes = &pcb_inner.mutex_list;
    let tasks = &pcb_inner.tasks;
    if requesting_mutex_id >= mutexes.len() {
        return false;
    }
    match &mutexes[requesting_mutex_id] {
        None => return false,
        Some(m) => {
            // A thread asking again for a lock it holds waits for itself.
            if m.is_locked_by(requesting_tid) {
                return true;
            }
        },
    }
    let num_tasks = tasks.len();
    let num_mutexes = mutexes.len();
    let ghost avail_spec = mutex_available(mutexes@);

    let mut available: Vec<usize> = Vec::new();
    let mut j: usize = 0;
    while j < num_mutexes
        invariant
            j <= num_mutexes,
            num_mutexes == mutexes@.len(),
            avail_spec == mutex_available(mutexes@),
            available@.len() == j,
            forall|q: int| 0 <= q < j ==> available@[q] == avail_spec[q],
        decreases num_mutexes - j,
    {
        let free = match &mutexes[j] {
            Some(m) => !m.is_locked(),
            None => false,
        };
        available.push(if free { 1 } else { 0 });
        j += 1;
    }
    assert(available@ =~= avail_spec);

    // What each thread holds and waits for
    let cell = |i: usize, j: usize| -> (c: (usize, usize))
        requires
            i < tasks@.len(),
            j < mutexes@.len(),
        ensures
            c.0 == mutex_allocation(tasks@, mutexes@)[i as int][j as int],
            c.1 == mutex_need(tasks@, mutexes@, requesting_tid, requesting_mutex_id as int)[i as int][j as int],
        {
            let tid = thread_id(tasks, i);
            let (holds, waits) = match (&mutexes[j], tid) {
                (Some(m), Some(t)) => (m.is_locked_by(t), m.is_waiting(t)),
                _ => (false, false),
            };
            let asked = match tid {
                Some(t) => t == requesting_tid && j == requesting_mutex_id,
                None => false,
            };
            let wants: usize = (if waits { 1 } else { 0 }) + (if asked { 1 } else { 0 });
            (if holds { 1 } else { 0 }, wants)
        };
    let (allocation, need) = build_matrices(
        num_tasks,
        num_mutexes,
        cell,
        Ghost(mutex_allocation(tasks@, mutexes@)),
        Ghost(mutex_need(tasks@, mutexes@, requesting_tid, requesting_mutex_id as int)),
    );
    let live = live_vector(tasks);

    // Run safety algorithm: can all threads eventually complete?
    is_unsafe(&available, &allocation, &need, &live)
}

/// Detects if granting a semaphore down request would cause a deadlock using the banker's algorithm.
/// Returns true if deadlock would occur, false otherwise.
pub fn detect_deadlock_semaphore<M>(
    pcb_inner: &ProcessControlBlockInner<M>,
    requesting_tid: usize,
    requesting_sem_id: usize,
) -> (r: bool)
    ensures
        r == semaphore_request_deadlocks(*pcb_inner, requesting_tid, requesting_sem_id as int),
{
    let tasks = &pcb_inner.tasks;
    let semaphores = &pcb_inner.semaphore_list;
    let held = &pcb_inner.semaphore_allocation;
    let num_tasks = tasks.len();
    let num_sems = semaphores.len();
    if requesting_sem_id >= num_sems {
        return false;
    }
    let ghost avail_spec = semaphore_available(semaphores@);

    // Get current available resources
    let mut available: Vec<usize> = Vec::with_capacity(num_sems);
    let mut s: usize = 0;
    while s < num_sems
        invariant
            s <= num_sems,
            num_sems == semaphores@.len(),
            avail_spec == semaphore_available(semaphores@),
            available@.len() == s,
            forall|k: int| 0 <= k < s ==> available@[k] == avail_spec[k],
        decreases num_sems - s,
    {
        match &semaphores[s] {
            Some(sem) => {
                proof {
                    sem.lemma_count_fits();
                }
                available.push(sem.current_value());
            },
            None => available.push(0),
        }
        s += 1;
    }
    assert(available@ =~= avail_spec);

    // What each thread holds and waits for
    let cell = |i: usize, j: usize| -> (c: (usize, usize))
        requires
            i < tasks@.len(),
            j < semaphores@.len(),
        ensures
            c.0 == semaphore_allocation(tasks@, held@, semaphores@.len() as int)[i as int][j as int],
            c.1 == semaphore_need(tasks@, semaphores@, requesting_tid, requesting_sem_id as int)[i as int][j as int],
        {
            let tid = thread_id(tasks, i);
            let units: usize = match tid {
                Some(t) => if t < held.len() && j < held[t].len() {
                    held[t][j]
                } else {
                    0
                },
                None => 0,
            };
            let waits = match (&semaphores[j], tid) {
                (Some(sem), Some(t)) => sem.is_waiting(t),
                _ => false,
            };
            let asked = match tid {
                Some(t) => t == requesting_tid && j == requesting_sem_id,
                None => false,
            };
            let wants: usize = (if waits { 1 } else { 0 }) + (if asked { 1 } else { 0 });
            (units, wants)
        };
    let (allocation, need) = build_matrices(
        num_tasks,
        num_sems,
        cell,
        Ghost(semaphore_allocation(tasks@, held@, num_sems as int)),
        Ghost(semaphore_need(tasks@, semaphores@, requesting_tid, requesting_sem_id as int)),
    );
    let live = live_vector(tasks);

    // Run safety algorithm: can all threads eventually complete?
    is_unsafe(&available, &allocation, &need, &live)
}

} // verus!
