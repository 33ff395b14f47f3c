use vstd::prelude::*;

verus! {

/// The registers a task switch saves: return address, stack pointer and the
/// callee-saved registers s0 to s11.
#[derive(Copy, Clone)]
pub struct TaskContext {
    pub ra: usize,
    pub sp: usize,
    pub s: [usize; 12],
}

} // verus!
