use vstd::prelude::*;
use std::collections::VecDeque;

verus! {

/// Whether thread `tid` is in the wait queue `queue`.
pub fn queue_contains(queue: &VecDeque<usize>, tid: usize) -> (r: bool)
    ensures
        r == queue@.contains(tid),
{
    let mut k: usize = 0;
    while k < queue.len()
        invariant
            k <= queue@.len(),
            forall|j: int| 0 <= j < k ==> queue@[j] != tid,
        decreases queue@.len() - k,
    {
        if queue[k] == tid {
            assert(queue@[k as int] == tid);
            return true;
        }
        k += 1;
    }
    false
}

} // verus!
