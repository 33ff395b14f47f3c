# rcore_os

The synchronisation and system-call logic of a small teaching kernel, written
in Verus with its behaviour stated and proved.

- `src/sync`: spin and blocking locks behind one `Mutex` trait, and a counting
  semaphore. Each operation is a step from state to state plus the action the
  calling thread must take (yield, sleep, wake a thread); laws cover mutual
  exclusion, first-come first-served hand-over and the semaphore's balance
  between its count and its sleepers.
- `src/syscall`: decoding of system calls with a counter per audited call, and
  what each process call decides and returns given what the kernel reports.
- `src/task`: the banker's safety check, and the deadlock checks run before a
  thread waits on a lock or a semaphore: a request is refused exactly when,
  added to what the threads already hold and wait for, no order lets every
  thread finish. They read a model of a process's locks, semaphores and
  threads; each task block keeps its own system-call counters.
- `src/fs`: locks and semaphores handed to user programs, with fresh ids.
- `app/`: the kernel side — global tables and the loops that sleep, wake and
  copy to user memory through a `Kernel` trait.
