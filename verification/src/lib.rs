//! Kernel synchronisation, system-call bookkeeping and deadlock checks of a
//! small teaching operating system, with their behaviour stated and proved.

pub mod sync;
pub mod syscall;
pub mod task;
pub mod fs;
