# hhutos

The logic of hhuTOS, a small x86-64 teaching kernel, as a Verus library with
proofs of its behaviour.

- `src/paging`: physical frames and the first-fit frame allocator, page table
  entries and flags, and four-level page tables with the mapping of kernel and
  user memory.
- `src/allocator`: the bump and linked-list heap allocators.
- `src/threads`: threads, their kernel stacks and address spaces, and the
  round-robin scheduler.
- `src/library`: a mutex that queues waiting threads.
- `src/processes`: processes, the process table and virtual memory areas.
- `src/devices`: the CGA text screen and the interval timer.
- `src/apps`, `src/startup.rs`, `src/syscalls.rs`: the rules of the user
  programs (Fibonacci, process ids, pong), of the PCI scan at start-up and of
  system calls.

`app/` runs the library as a host program: the terminal serves as screen and
keyboard, physical memory is simulated, and the floating-point physics of the
pong game lives there. `tests/` runs the library on concrete values.
