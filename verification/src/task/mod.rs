pub mod context;
pub mod banker;
pub mod deadlock;
pub mod process;
pub mod task;
