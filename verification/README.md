# minilibc

Pieces of a small C library for Linux, verified with Verus.

- `src/` is the verified library:
  - `bitwise`: bit scans, population counts, parities and bit reversal, with
    laws relating them (reversal is an involution, keeps the count and
    mirrors the scans).
  - `memory`: `memcpy`, `memmove`, `memchr` and `memcmp` over byte slices,
    block by block as the vectorised versions work.
  - `time`: spans, clock readings and instants with checked arithmetic.
  - `parking_lot`: spin back-off, deadlines, lock-elision flavoured atomics
    and the decision a parked thread makes on each round.
  - `futex`: the decision a futex waiter makes on each round.
  - `posix`: what the system call wrappers hand back to C.
  - `thread_local`: a table from thread id to value, a chain of
    linear-probing hash tables that grows by doubling; values are reached by
    thread id, by place in the listing (`nth_mut`) or all at once
    (`into_values`).
- `app/` holds the C entry points, system calls, atomics and the math
  functions, which forward to `libm`.
- `tests/` runs the library.
