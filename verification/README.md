# taskline

Scheduling of tasks through queues ordered by a score, usually a unix timestamp:
a producer enqueues tasks, a consumer dequeues the ones that are due, a committer
removes handled ones. Queues live in memory or in a Redis sorted set.

- `src/` is the library, verified with Verus: the backend interfaces, the in-memory
  queue `MemoryQueue` with its laws (`backends/queue_laws.rs`), producers, consumers, committers,
  the task registry, the Redis settings and the decisions the Redis commands depend on,
  and the reading of the server version out of the `INFO` answer.
- `app/` holds what runs around it: the Redis commands and their awaiting, JSON coding
  of tasks, the clock, `MemoryBackend` (a `MemoryQueue` shared by all clones of the
  backend, behind a lock), and the task macros.
- `tests/` runs the library on concrete values.
