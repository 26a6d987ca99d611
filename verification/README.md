# uefi_async

A cooperative executor toolkit for UEFI and bare-metal targets, with its
logic verified by Verus.

## Layout

- `src/` — the verified library.
  - `st3` — bounded work-stealing queues over wrapping `u32` positions:
    `st3::lifo` (the worker pops the newest item) and `st3::fifo` (the
    worker pops the oldest item). Stealers book a batch from the head and
    move it to another queue; an unfinished booking blocks other steals.
  - `executor`, `task` — a work-stealing executor over per-core run queues
    and a pool of task slots with wake policies.
  - `nano_alloc` — a list executor that polls each task at its own
    frequency, tick-based timers and timeouts, combinators (join, try-join,
    join-all, select), the queue of single-core channels and multi-core
    channels.
  - `nano_cast` — an executor with a fixed number of task slots.
  - `no_alloc` — task states, wake policies, statically sized pools and a
    channel over a lock-free static queue.
  - `common` — clock calibration, yielding and pacing, signals.
  - `bss` — a sleep on the time-stamp counter.
  - `entry` — the checks an entry module passes: only `use` items and the
    known entry functions, each with the right asyncness and no parameters.
- `app/` — what runs on the hardware: the tick counter, calibration by
  stalling, `Future` adapters, the executor loops, the sharing of single-core
  channel queues, the keyboard future and the global allocator.
- `tests/` — tests of the library on concrete values.

Computations polled by the executors implement `poll::Pollable`, which
names each computation's steps (`Pollable::step`): the executors and
combinators state which computations they poll and what each step gives.
The current tick count and the clock frequency are passed in by the caller.
