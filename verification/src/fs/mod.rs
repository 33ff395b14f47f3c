pub mod sync;
