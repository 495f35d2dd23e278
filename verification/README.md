# harness_state

The verified core of a pluggable storage layer for agent threads: sessions, thread
records, manage tasks, skills, memory and thread deletion, kept on a local file system,
Redis, S3-compatible object stores, SQLite or Postgres.

- `src/` is the library, proved with Verus: key and path layouts of every backend, the
  decoders of stored rows and indexes, the deletion state machine and its audit reports,
  the session table, the memory cache, memory profiles, prompts and token budgets,
  segmented retrieval, archived-entry ranking and semantic compression, fact
  deduplication, removal and conflict detection, semantic terms and fact grouping,
  storage planning from configuration, the tool registry and schema validation.
- `app/` holds what the library does not: the async store ports, the backends that do
  the I/O the library plans, fact ranking by floating-point weights, the memory
  document with its serde form, and serde forms of the records.
- `tests/` exercises the library on concrete values.

Not part of this crate: extracting facts and merging thread memories with a language
model, and the memory system that drives them.
