# shibei

The core logic of Shibei, a local-first reading library with end-to-end
encrypted sync, written in Verus and proved against its contracts.

- `src/` — the verified library: hybrid logical clocks, the lock screen
  (PIN hashing, master-key wrapping, failure throttling), pairing
  envelopes, sync encryption and planning (which JSONL files to pull, the
  order in which remote entries apply, last-writer-wins, compaction and
  snapshot decisions), the question store, search planning and snippets,
  the snapshot cache index, the answers of the app commands, and the NAPI
  code generator (parsing and the three renderers). Calls into outside
  crates stand behind the trusted items of `src/ext.rs`, `src/keystore.rs`,
  `src/napi_parse.rs` (syn)
  and a few single wrappers, each documented with what it claims.
- `tests/` — unit and scenario tests of the library.
- `app/` — ordinary Rust around it: files and SQLite, JSON records, the
  code generator's and pairing tool's command lines, and the sync loop.
