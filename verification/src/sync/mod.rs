pub mod mutex;
pub mod semaphore;
pub mod wait_queue;
