# autotask

A queue of tasks that a few threads work off.

A task is a value with a `run` method. The queue keeps the values, byte by byte, in one
buffer; `src/record.rs` describes a record of it. Runners claim tasks from the end of the
buffer, copy the value to an aligned place, run it there and mark it as run
(`src/queue.rs`, `src/runner.rs`). `src/expand.rs` writes the code that a function becomes
when it is made a task.

- `src/` is the library. Verus proves its contracts.
- `tests/` runs it.
- `app/` holds the lock, the threads and a program that counts in three tasks.

The library is for machines with words of eight bytes.
