# monty

The runtime core of a sandboxed Python interpreter, written in Verus: the object
heap, values and their comparison, hashing and sorting, ranges and iterators, dates,
time deltas and time zones, the `print()` writer, the builtins that need no parser,
the async scheduler (tasks, external calls, `gather`), the VM's await and resume
logic, and the REPL bookkeeping (global names, paused runs, resuming them).

## Layout

- `src/` is the library. Every function in it is verified by Verus against its
  `requires` / `ensures`; the data types carry views (`Heap` is seen as a sequence
  of slots and a free list) and well-formedness predicates that every operation
  keeps. Properties that relate several functions are stated as public proof
  functions, named `law_...`.
- `src/collections.rs`, `src/date.rs` (the calls into `chrono` and `speedate`),
  `src/range.rs` (`num-integer`'s ceiling division), `src/sorting.rs` (slice swap)
  and `src/text.rs` (pushing a character) hold the trusted items: small wrappers
  marked `#[verifier::external_body]` whose contracts restate what the outside
  crate or the standard library documents, and the declarations of the outside
  types (`ahash`'s map, set and random state). Everything else in `src/` is proved.
- `tests/` runs the library on concrete inputs.
- `app/` is the unverified glue that touches the process: writing `print()` output
  to standard output and answering the operating-system calls that need the clock.
