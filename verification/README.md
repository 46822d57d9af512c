# zeppelin_embed

The lifecycle of an embedded store for vector, lexical and hybrid search: how a
store is opened, sealed, read, searched, drained and closed, under byte budgets,
deadlines and cancellation.

The library decides and a caller performs. Threads, locks, files and the scan,
graph and full-text engines stay with the caller; what they return is handed to
the library as plain values, and every decision that follows from it is verified.
Instants and durations are nanoseconds, and floating-point scores are carried as
their bits, with the order that IEEE 754 gives them.

## Layout

- `src/` is the verified library.
  - Opening and closing: `open`, `options`, `durability`, `lock`, `snapshot`,
    `store`.
  - Stopping and memory: `clock`, `control`, `poll`, `budget`, `accounting`.
  - Vector queries: `vector_search`, `search`, `plan`, `traversal`,
    `graph_cache`, `prepared`, `exhaustive`, `rescored_scan`, `pool`.
  - Lexical queries: `lexical`, `lexical_search`, `structured`, `expansion`,
    `prepared_lexical`, `assembly_cache`.
  - Hybrid queries: `hybrid_search`, `legs`, `hybrid`, `round`, `cross_fill`,
    `cross_lexical`, `cross_score`, `identity`, `fusion`, `observations`.
  - Text and metadata of results: `materialize`, `with_text`, `metadata`.
  - Faults for storage tests: `fault`, `watch`, `wal_facts`, `acknowledgment`.
  - Shared models: `ids`, `score`, `rank`, `candidates`, `corpus`, `error`,
    `text`, `paths`.
- `tests/` runs the library on concrete values.
- `app/` holds the threads, the writer lock file and the engine traits around it.

## What is trusted

Two functions read the system's monotonic clock and one builds a `String` from
its characters. Each is a wrapper with a stated contract, in `clock` and `text`.
Everything else is proved.
