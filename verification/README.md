# typemach

A typed state-machine runtime for agents that run in steps: checkpoints, interrupts and resumes,
streaming, cancellation, run stores and leases. The rules are written and proved in Verus; the
asynchronous parts around them are ordinary Rust.

## Layout

- `src/` is the verified library. Its executable functions carry contracts over a mathematical
  model, and the laws of the library are public proof functions. What is sent on a channel is part
  of the model; what its receiver makes of it is not.
- `app/` runs machines on `tokio` and keeps runs in memory, in SQLite or in PostgreSQL. It performs
  what the library decides and hands back what came of it. `app/testkit.rs` is a conformance suite
  for those who write a store of their own.
- `tests/` run the library.

## The library

| Modules | What they hold |
| --- | --- |
| `text`, `ids`, `zero`, `json`, `error`, `table` | texts, identifiers, JSON values as compact texts, errors, keyed tables |
| `op`, `checkpoint`, `store` | effects, items, entries, checkpoints, runs, commits, leases |
| `model`, `store_view` | the model of a run store: what each operation makes of its contents, and what always holds of them |
| `validate`, `entries`, `listing`, `memory` | the run store in memory, proved against the model |
| `channel`, `flag` | those who listen and what was sent to them, and the flags that the copies of a handle share |
| `registry`, `flow`, `life_view`, `lifecycle` | the runs that are active here, their numbers and listeners, and the life of a run over a store |
| `run`, `machine`, `runner`, `cancel` | turns: where they begin, and step by step what is to be done |
| `payload`, `pending`, `runtime`, `tx`, `bridge` | how what a turn tells is recorded, passed on and ended |
| `rows`, `writes` | what is read from the rows of a database, what is decided on them, and what a commit writes |
| `store_laws`, `laws`, `listen_laws`, `life_laws`, `turn_laws`, `stream_laws`, `row_laws` | the laws |

## Some of the laws

- A commit is written whole or not at all, and what it wrote is read back.
- A run ends once. At most one run goes on on a thread.
- Whoever does not hold the lease of a run changes nothing of it.
- A run whose lease has run out can be ended by anyone, which frees its thread.
- Asking a run to stop sets the flag that all copies of its handle read, and no other; a request
  that is refused sets none.
- Those who listen to a run are sent what is recorded of it, once and in order, as long as their
  channel takes it, and who joins later misses nothing.
- A step is told only once the state after it was saved. The last step of a turn, its checkpoint
  and the end of the run are committed together.
- A stream begins with the beginning, its steps follow one another with their signals between, and
  its end comes once and last.
- A run that a runtime starts, and each commit for it, carry one lease.
- A thread that was interrupted is resumed from where it was interrupted.
- The signatures of two starts are the same exactly if their inputs and entries are.
- A commit that is decided on the rows of a database is written exactly if the store in memory
  would write it, and then whole.

## Time and values

The library has no clock of its own: points in time and lengths of time are nanoseconds that its
callers pass in. JSON values are kept as compact texts, and two values are the same when their
texts are, but for the signs of zeros.
