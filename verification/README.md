# os

The verified core of a teaching kernel's syscalls, written in Verus.

- `src/stride.rs`: stride values of the stride scheduler, and the bound on
  how far apart the strides of ready tasks can drift.
- `src/manager.rs`: the ready queue, which hands out the task of smallest
  stride.
- `src/process.rs`: time conversion, task statistics, and the decisions of
  `mmap`, `munmap` and `sbrk`.
- `src/sync.rs`: slot tables of mutexes, semaphores and condition
  variables, and the banker-style accounting behind deadlock detection.
- `app/lib.rs`: the syscall layer that connects these decisions to the rest
  of the kernel (task switching, timers, the memory manager and the kernel's
  synchronisation objects), and the global ready queue.
- `tests/`: tests on concrete values.
