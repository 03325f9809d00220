# lachuoi

A cron scheduler and WASI task runner with a master/worker layout, written in Verus.

- `src/` is the verified library: the scheduler's state and its tick, configuration
  reloads, task and worker bookkeeping, the schema plan, how task rows are written and
  read back, WASM binary integrity checks, the dashboard's access rule and page
  arithmetic, the task-output protocol, task tokens, a worker's disk-usage totals, and
  the small HTTP apps' parsing.
  Each public function carries a contract; the properties that span several functions
  are stated and proved as public `lemma_*` proof functions.
- `tests/` runs the library on concrete values.
- `app/` is the program around it: the command line, the database connection, the web
  server, the RPC between master and workers, and the Wasmtime runner.

Calls into outside crates (chrono, cron, serde_json, sha2, uuid, rand, urlencoding) go
through small trusted wrappers whose doc comments say what each one claims.
