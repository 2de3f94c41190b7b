# disk-write-bench

Measures sustained disk write throughput on Linux, with four write paths so each layer of the
stack can be isolated: `O_DIRECT` or the page cache, and io_uring or `write(2)`.

The rules of a run are a library verified with [Verus](https://github.com/verus-lang/verus);
the program around it makes the system calls.

| Directory | Contents |
|---|---|
| `src/` | the library |
| `tests/` | its tests |
| `app/` | the program: files, `fallocate`, io_uring, the clock, and figures in floating point |

The library's modules:

| Module | Contents |
|---|---|
| `args`, `option_order`, `mode`, `usage` | the command line, and the order of its options |
| `size`, `number`, `text` | sizes and numbers, read and printed |
| `split`, `path`, `mounts` | which filesystem a path is on |
| `session` | a run from the first open to the last line printed |
| `uring`, `ring_laws` | the io_uring write loop, and what holds of it |
| `buffered` | the `write(2)` loop |
| `buffer` | what is written |
| `stats` | what was measured, and its report |

Each loop and the run as a whole is a state machine: the library says what to do next, the
program does it and reports back. A `law_` function states what holds of all inputs that its
`requires` admits; those over `after` in `ring_laws` hold at each point of a run of the io_uring
loop, failed runs among them. A failure to wait for completions is not an event of that loop:
the program then reports it and keeps the buffers.

With io_uring, a block of 4 GiB or more and a queue of more than 2147483648 writes are refused
before the file is created; a request cannot carry the one, and no ring holds the other. Where
the duration or the cap is zero, no write is asked for, and a block may be of any size.
