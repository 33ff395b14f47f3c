//! The banker's safety check: whether every thread of a process can still
//! finish, given what is free, what each thread holds and what each thread
//! waits for.

use vstd::prelude::*;

verus! {

/// Whether `need` fits into `work`, resource by resource.
pub open spec fn fits(need: Seq<usize>, work: Seq<int>) -> bool {
    forall|j: int| 0 <= j < need.len() ==> need[j] <= #[trigger] work[j]
}

/// The units of resource `j` that the threads in `done`, among the first `n`
/// slots, hold.
pub open spec fn held_by(alloc: Seq<Seq<usize>>, done: Set<int>, n: int, j: int) -> int
    decreases n,
{
    if n <= 0 {
        0
    } else {
        held_by(alloc, done, n - 1, j) + if done.contains(n - 1) {
            alloc[n - 1][j] as int
        } else {
            0
        }
    }
}

/// What is free once the threads in `done` have finished and given back all
/// they hold.
pub open spec fn work_after(avail: Seq<usize>, alloc: Seq<Seq<usize>>, done: Set<int>) -> Seq<int> {
    Seq::new(avail.len(), |j: int| avail[j] + held_by(alloc, done, alloc.len() as int, j))
}

/// `order` lists every live thread once, and each thread's need fits into
/// what is free plus what the threads listed before it give back.
pub open spec fn is_safe_sequence(
    avail: Seq<usize>,
    alloc: Seq<Seq<usize>>,
    need: Seq<Seq<usize>>,
    live: Seq<bool>,
    order: Seq<int>,
) -> bool {
    &&& order.no_duplicates()
    &&& forall|k: int| 0 <= k < order.len() ==> 0 <= #[trigger] order[k] < live.len() && live[order[k]]
    &&& forall|t: int| 0 <= t < live.len() && #[trigger] live[t] ==> order.contains(t)
    &&& forall|k: int|
        0 <= k < order.len() ==> fits(
            need[#[trigger] order[k]],
            work_after(avail, alloc, order.subrange(0, k).to_set()),
        )
}

/// A state is safe when its threads can finish one after the other.
pub open spec fn is_safe(
    avail: Seq<usize>,
    alloc: Seq<Seq<usize>>,
    need: Seq<Seq<usize>>,
    live: Seq<bool>,
) -> bool {
    exists|order: Seq<int>| is_safe_sequence(avail, alloc, need, live, order)
}

/// The rows of a matrix.
pub open spec fn rows(m: Seq<Vec<usize>>) -> Seq<Seq<usize>> {
    m.map_values(|r: Vec<usize>| r@)
}

/// Every matrix row has `width` entries.
pub open spec fn all_rows_have(m: Seq<Seq<usize>>, width: int) -> bool {
    forall|i: int| 0 <= i < m.len() ==> #[trigger] m[i].len() == width
}

/// The number of live threads among the first `n` slots that have not
/// finished.
pub open spec fn unfinished(finish: Seq<bool>, live: Seq<bool>, n: int) -> nat
    decreases n,
{
    if n <= 0 {
        0
    } else {
        unfinished(finish, live, n - 1) + if !finish[n - 1] && live[n - 1] {
            1nat
        } else {
            0nat
        }
    }
}

proof fn lemma_unfinished_same(f1: Seq<bool>, f2: Seq<bool>, live: Seq<bool>, n: int)
    requires
        0 <= n,
        forall|k: int| 0 <= k < n ==> f1[k] == f2[k],
    ensures
        unfinished(f1, live, n) == unfinished(f2, live, n),
    decreases n,
{
    if n > 0 {
        lemma_unfinished_same(f1, f2, live, n - 1);
    }
}

proof fn lemma_unfinished_step(finish: Seq<bool>, live: Seq<bool>, n: int, i: int)
    requires
        0 <= i < n <= finish.len(),
        !finish[i],
        live[i],
    ensures
        unfinished(finish.update(i, true), live, n) + 1 == unfinished(finish, live, n),
    decreases n,
{
    if n - 1 > i {
        lemma_unfinished_step(finish, live, n - 1, i);
    } else {
        lemma_unfinished_same(finish, finish.update(i, true), live, i);
    }
}

proof fn lemma_held_by_insert(alloc: Seq<Seq<usize>>, done: Set<int>, n: int, j: int, t: int)
    requires
        0 <= t < n,
        !done.contains(t),
    ensures
        held_by(alloc, done.insert(t), n, j) == held_by(alloc, done, n, j) + alloc[t][j],
    decreases n,
{
    if n - 1 > t {
        lemma_held_by_insert(alloc, done, n - 1, j, t);
    } else {
        lemma_held_by_same(alloc, done, done.insert(t), t, j);
    }
}

proof fn lemma_held_by_same(alloc: Seq<Seq<usize>>, a: Set<int>, b: Set<int>, n: int, j: int)
    requires
        forall|x: int| 0 <= x < n ==> (a.contains(x) <==> b.contains(x)),
    ensures
        held_by(alloc, a, n, j) == held_by(alloc, b, n, j),
    decreases n,
{
    if n > 0 {
        lemma_held_by_same(alloc, a, b, n - 1, j);
    }
}

pub proof fn lemma_held_by_mono(alloc: Seq<Seq<usize>>, a: Set<int>, b: Set<int>, n: int, j: int)
    requires
        forall|x: int| 0 <= x < n && a.contains(x) ==> b.contains(x),
    ensures
        held_by(alloc, a, n, j) <= held_by(alloc, b, n, j),
    decreases n,
{
    if n > 0 {
        lemma_held_by_mono(alloc, a, b, n - 1, j);
    }
}

/// The first entry of `s` outside `set`, when there is one.
proof fn lemma_first_outside(s: Seq<int>, set: Set<int>) -> (k: int)
    requires
        exists|i: int| 0 <= i < s.len() && !set.contains(s[i]),
    ensures
        0 <= k < s.len(),
        !set.contains(s[k]),
        forall|i: int| 0 <= i < k ==> set.contains(s[i]),
    decreases s.len(),
{
    if exists|i: int| 0 <= i < s.len() - 1 && !set.contains(s[i]) {
        let w = choose|i: int| 0 <= i < s.len() - 1 && !set.contains(s[i]);
        assert(s.drop_last()[w] == s[w]);
        let k = lemma_first_outside(s.drop_last(), set);
        assert(forall|i: int| 0 <= i <= k ==> s.drop_last()[i] == s[i]);
        k
    } else {
        s.len() - 1
    }
}

proof fn lemma_push_contains(s: Seq<int>, v: int)
    ensures
        forall|x: int| s.push(v).contains(x) <==> (s.contains(x) || x == v),
        s.push(v).to_set() =~= s.to_set().insert(v),
{
    lemma_push_contains_only(s, v);
    assert forall|x: int| #[trigger] s.push(v).to_set().contains(x) == s.to_set().insert(v).contains(
        x,
    ) by {
        assert(s.push(v).to_set().contains(x) == s.push(v).contains(x));
        assert(s.to_set().contains(x) == s.contains(x));
    }
}

proof fn lemma_push_contains_only(s: Seq<int>, v: int)
    ensures
        forall|x: int| s.push(v).contains(x) <==> (s.contains(x) || x == v),
{
    assert forall|x: int| s.push(v).contains(x) <==> (s.contains(x) || x == v) by {
        if s.contains(x) {
            let k = choose|k: int| 0 <= k < s.len() && s[k] == x;
            assert(s.push(v)[k] == x);
        }
        if x == v {
            assert(s.push(v)[s.len() as int] == v);
        }
        if !s.contains(x) && x != v && s.push(v).contains(x) {
            let k = choose|k: int| 0 <= k < s.len() + 1 && s.push(v)[k] == x;
            assert(k < s.len());
            assert(s[k] == x);
        }
        if s.push(v).contains(x) {
            let k = choose|k: int| 0 <= k < s.len() + 1 && s.push(v)[k] == x;
            if k < s.len() {
                assert(s[k] == x);
            }
        }
    }
}

/// When no unfinished live thread fits into what the finished ones leave,
/// and some live thread has not finished, no safe order exists.
proof fn lemma_stuck_is_unsafe(
    avail: Seq<usize>,
    alloc: Seq<Seq<usize>>,
    need: Seq<Seq<usize>>,
    live: Seq<bool>,
    order: Seq<int>,
    u: int,
)
    requires
        alloc.len() == live.len(),
        need.len() == live.len(),
        all_rows_have(need, avail.len() as int),
        0 <= u < live.len(),
        live[u],
        !order.contains(u),
        forall|t: int|
            0 <= t < live.len() && live[t] && !order.contains(t) ==> !fits(
                need[t],
                work_after(avail, alloc, order.to_set()),
            ),
    ensures
        !is_safe(avail, alloc, need, live),
{
    if is_safe(avail, alloc, need, live) {
        let s = choose|s: Seq<int>| is_safe_sequence(avail, alloc, need, live, s);
        let done = order.to_set();
        assert(s.contains(u));
        let iu = choose|i: int| 0 <= i < s.len() && s[i] == u;
        assert(!done.contains(s[iu]));
        let k = lemma_first_outside(s, done);
        let t = s[k];
        let before = s.subrange(0, k).to_set();
        assert forall|x: int| 0 <= x < alloc.len() && before.contains(x) implies done.contains(x) by {
            let i = choose|i: int| 0 <= i < k && s.subrange(0, k)[i] == x;
            assert(s[i] == x);
        }
        assert(fits(need[t], work_after(avail, alloc, before)));
        assert forall|j: int| 0 <= j < need[t].len() implies need[t][j] <= #[trigger] work_after(
            avail,
            alloc,
            done,
        )[j] by {
            assert(need[t][j] <= work_after(avail, alloc, before)[j]);
            lemma_held_by_mono(alloc, before, done, alloc.len() as int, j);
        }
        assert(0 <= t < live.len() && live[t]);
        assert(!order.contains(t));
        assert(fits(need[t], work_after(avail, alloc, done)));
    }
}

/// Whether the state is unsafe: no order lets every live thread finish.
/// `available[j]` units of resource `j` are free, thread `t` holds
/// `allocation[t][j]` and waits for `need[t][j]` more; `live[t]` says whether
/// slot `t` holds a thread.
pub fn is_unsafe(
    available: &Vec<usize>,
    allocation: &Vec<Vec<usize>>,
    need: &Vec<Vec<usize>>,
    live: &Vec<bool>,
) -> (r: bool)
    requires
        allocation@.len() == live@.len(),
        need@.len() == live@.len(),
        all_rows_have(rows(allocation@), available@.len() as int),
        all_rows_have(rows(need@), available@.len() as int),
    ensures
        r == !is_safe(available@, rows(allocation@), rows(need@), live@),
{
    let n = live.len();
    let m = available.len();
    let ghost avail = available@;
    let ghost alloc = rows(allocation@);
    let ghost needs = rows(need@);
    let mut work: Vec<usize> = Vec::new();
    let mut c: usize = 0;
    while c < m
        invariant
            c <= m,
            m == avail.len(),
            avail == available@,
            work@.len() == c,
            forall|j: int| 0 <= j < c ==> work@[j] == avail[j],
        decreases m - c,
    {
        work.push(available[c]);
        c += 1;
    }
    let mut finish: Vec<bool> = Vec::new();
    let mut k: usize = 0;
    while k < n
        invariant
            k <= n,
            finish@.len() == k,
            forall|t: int| 0 <= t < k ==> !finish@[t],
        decreases n - k,
    {
        finish.push(false);
        k += 1;
    }
    let ghost mut order: Seq<int> = Seq::empty();
    proof {
        assert forall|j: int| 0 <= j < m implies work@[j] == vstd::math::min(
            #[trigger] work_after(avail, alloc, order.to_set())[j],
            usize::MAX as int,
        ) by {
            assert(held_by(alloc, order.to_set(), alloc.len() as int, j) == 0) by {
                lemma_held_by_same(alloc, order.to_set(), Set::empty(), alloc.len() as int, j);
                lemma_held_by_empty(alloc, alloc.len() as int, j);
            }
        }
    }
    loop
        invariant
            n == live@.len(),
            m == avail.len(),
            avail == available@,
            alloc == rows(allocation@),
            needs == rows(need@),
            allocation@.len() == n,
            need@.len() == n,
            all_rows_have(alloc, m as int),
            all_rows_have(needs, m as int),
            finish@.len() == n,
            work@.len() == m,
            order.no_duplicates(),
            forall|i: int| 0 <= i < order.len() ==> 0 <= #[trigger] order[i] < n && live@[order[i]],
            forall|t: int| 0 <= t < n ==> (finish@[t] <==> order.contains(t)),
            forall|i: int|
                0 <= i < order.len() ==> fits(
                    needs[#[trigger] order[i]],
                    work_after(avail, alloc, order.subrange(0, i).to_set()),
                ),
            forall|j: int|
                0 <= j < m ==> work@[j] == vstd::math::min(
                    #[trigger] work_after(avail, alloc, order.to_set())[j],
                    usize::MAX as int,
                ),
        ensures
            finish@.len() == n,
            order.no_duplicates(),
            forall|i: int| 0 <= i < order.len() ==> 0 <= #[trigger] order[i] < n && live@[order[i]],
            forall|t: int| 0 <= t < n ==> (finish@[t] <==> order.contains(t)),
            forall|i: int|
                0 <= i < order.len() ==> fits(
                    needs[#[trigger] order[i]],
                    work_after(avail, alloc, order.subrange(0, i).to_set()),
                ),
            forall|t: int|
                0 <= t < n && live@[t] && !finish@[t] ==> !fits(
                    needs[t],
                    work_after(avail, alloc, order.to_set()),
                ),
        decreases unfinished(finish@, live@, n as int),
    {
        let ghost before = unfinished(finish@, live@, n as int);
        let mut found = false;
        let mut i: usize = 0;
        while i < n
            invariant
                i <= n,
                n == live@.len(),
                m == avail.len(),
                avail == available@,
                alloc == rows(allocation@),
                needs == rows(need@),
                allocation@.len() == n,
                need@.len() == n,
                all_rows_have(alloc, m as int),
                all_rows_have(needs, m as int),
                finish@.len() == n,
                work@.len() == m,
                order.no_duplicates(),
                forall|x: int| 0 <= x < order.len() ==> 0 <= #[trigger] order[x] < n && live@[order[x]],
                forall|t: int| 0 <= t < n ==> (finish@[t] <==> order.contains(t)),
                forall|x: int|
                    0 <= x < order.len() ==> fits(
                        needs[#[trigger] order[x]],
                        work_after(avail, alloc, order.subrange(0, x).to_set()),
                    ),
                forall|j: int|
                    0 <= j < m ==> work@[j] == vstd::math::min(
                        #[trigger] work_after(avail, alloc, order.to_set())[j],
                        usize::MAX as int,
                    ),
                unfinished(finish@, live@, n as int) <= before,
                found ==> unfinished(finish@, live@, n as int) < before,
                !found ==> forall|t: int|
                    0 <= t < i && live@[t] && !finish@[t] ==> !fits(
                        needs[t],
                        work_after(avail, alloc, order.to_set()),
                    ),
            decreases n - i,
        {
            if !finish[i] && live[i] {
                // Does thread i's need fit into what is free now?
                let row = &need[i];
                assert(needs[i as int] == need@[i as int]@);
                assert(needs[i as int].len() == m);
                let mut ok = true;
                let mut j: usize = 0;
                while j < m
                    invariant
                        j <= m,
                        m == avail.len(),
                        work@.len() == m,
                        row@ == needs[i as int],
                        row@.len() == m,
                        ok == forall|q: int| 0 <= q < j ==> row@[q] <= work@[q],
                    decreases m - j,
                {
                    if row[j] > work[j] {
                        ok = false;
                    }
                    j += 1;
                }
                proof {
                    assert(needs[i as int].len() == m);
                    assert(ok == fits(needs[i as int], work_after(avail, alloc, order.to_set()))) by {
                        if !ok {
                            let q = choose|q: int| 0 <= q < m && !(row@[q] <= work@[q]);
                            assert(work@[q] == vstd::math::min(
                                work_after(avail, alloc, order.to_set())[q],
                                usize::MAX as int,
                            ));
                        } else {
                            assert forall|q: int| 0 <= q < needs[i as int].len() implies needs[i as int][q]
                                <= #[trigger] work_after(avail, alloc, order.to_set())[q] by {
                                assert(row@[q] <= work@[q]);
                                assert(work@[q] == vstd::math::min(
                                    work_after(avail, alloc, order.to_set())[q],
                                    usize::MAX as int,
                                ));
                            }
                        }
                    }
                }
                if ok {
                    proof {
                        lemma_unfinished_step(finish@, live@, n as int, i as int);
                    }
                    let ghost old_order = order;
                    let ghost old_work = work@;
                    let ghost finish_before = finish@;
                    finish.set(i, true);
                    let arow = &allocation[i];
                    assert(alloc[i as int] == allocation@[i as int]@);
                    assert(alloc[i as int].len() == m);
                    let mut j: usize = 0;
                    while j < m
                        invariant
                            j <= m,
                            m == avail.len(),
                            work@.len() == m,
                            arow@ == alloc[i as int],
                            arow@.len() == m,
                            finish@ == finish_before.update(i as int, true),
                            forall|q: int| j <= q < m ==> work@[q] == old_work[q],
                            forall|q: int|
                                0 <= q < j ==> work@[q] == vstd::math::min(
                                    old_work[q] + arow@[q],
                                    usize::MAX as int,
                                ),
                        decreases m - j,
                    {
                        let w = work[j].saturating_add(arow[j]);
                        work.set(j, w);
                        j += 1;
                    }
                    proof {
                        order = order.push(i as int);
                        lemma_push_contains(old_order, i as int);
                        assert(order.subrange(0, old_order.len() as int) =~= old_order);
                        assert(!old_order.contains(i as int));
                        assert forall|q: int| 0 <= q < m implies work@[q] == vstd::math::min(
                            #[trigger] work_after(avail, alloc, order.to_set())[q],
                            usize::MAX as int,
                        ) by {
                            lemma_held_by_insert(alloc, old_order.to_set(), alloc.len() as int, q, i as int);
                            assert(old_work[q] == vstd::math::min(
                                work_after(avail, alloc, old_order.to_set())[q],
                                usize::MAX as int,
                            ));
                        }
                        assert forall|x: int|
                            0 <= x < order.len() implies fits(
                            needs[#[trigger] order[x]],
                            work_after(avail, alloc, order.subrange(0, x).to_set()),
                        ) by {
                            if x < old_order.len() {
                                assert(order.subrange(0, x) =~= old_order.subrange(0, x));
                            }
                        }
                        assert forall|t: int| 0 <= t < n implies (finish@[t] <==> order.contains(t)) by {
                            if t != i {
                                assert(finish@[t] == finish_before[t]);
                                assert(finish_before[t] <==> old_order.contains(t));
                                assert(order.contains(t) <==> old_order.contains(t));
                            } else {
                                assert(order.contains(t));
                            }
                        }
                    }
                    found = true;
                }
            }
            i += 1;
        }
        if !found {
            break;
        }
    }
    let mut all_finished = true;
    let mut t: usize = 0;
    while t < n
        invariant
            t <= n,
            n == live@.len(),
            finish@.len() == n,
            all_finished == forall|x: int| 0 <= x < t && live@[x] ==> finish@[x],
        decreases n - t,
    {
        if live[t] && !finish[t] {
            all_finished = false;
        }
        t += 1;
    }
    proof {
        if all_finished {
            assert(is_safe_sequence(avail, alloc, needs, live@, order));
        } else {
            let u = choose|x: int| 0 <= x < n && live@[x] && !finish@[x];
            lemma_stuck_is_unsafe(avail, alloc, needs, live@, order, u);
        }
    }
    !all_finished
}

/// The finished threads give back at least what any one of them holds.
pub proof fn lemma_held_by_at_least(alloc: Seq<Seq<usize>>, done: Set<int>, n: int, j: int, x: int)
    requires
        0 <= x < n,
        done.contains(x),
    ensures
        held_by(alloc, done, n, j) >= alloc[x][j],
    decreases n,
{
    if n - 1 > x {
        lemma_held_by_at_least(alloc, done, n - 1, j, x);
    } else {
        lemma_held_by_nonneg(alloc, done, n - 1, j);
    }
}

/// Nothing given back is negative.
pub proof fn lemma_held_by_nonneg(alloc: Seq<Seq<usize>>, done: Set<int>, n: int, j: int)
    ensures
        held_by(alloc, done, n, j) >= 0,
    decreases n,
{
    if n > 0 {
        lemma_held_by_nonneg(alloc, done, n - 1, j);
    }
}

/// Threads that hold none of resource `j` give none of it back.
pub proof fn lemma_held_by_zero(alloc: Seq<Seq<usize>>, done: Set<int>, n: int, j: int)
    requires
        forall|x: int| 0 <= x < n && done.contains(x) ==> alloc[x][j] == 0,
    ensures
        held_by(alloc, done, n, j) == 0,
    decreases n,
{
    if n > 0 {
        lemma_held_by_zero(alloc, done, n - 1, j);
    }
}

pub proof fn lemma_held_by_empty(alloc: Seq<Seq<usize>>, n: int, j: int)
    ensures
        held_by(alloc, Set::empty(), n, j) == 0,
    decreases n,
{
    if n > 0 {
        lemma_held_by_empty(alloc, n - 1, j);
    }
}

} // verus!
