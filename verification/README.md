# circuitforge

The core of CircuitForge, a cooperative coding game in which an AC spark
writes code and a DC spark validates it on a circuit board of probes, fuses
and relays. The library is written in Verus and proved against its contracts.

- `src/engine/constructs.rs` — the construct evaluation fold over a run's event
  log (draft, active, certified, regressed), with its laws.
- `src/engine/board.rs` — board updates, event replay, visibility, HP rules.
- `src/engine/world.rs` — run state, actions, probes, gate predicates,
  permissions, patches and their hand-off, relays, the run registry, and the
  laws that replaying the log rebuilds the board of every logged action (moves,
  energizing, relays, violations, patches, probe results with their heals,
  clamping, evidence and failure signatures).
- `src/generator/scaffold.rs` — starter repositories, validator commands and
  generated environments per language and difficulty.
- `src/ipc/` — command request/response shapes, error codes, sign-off paths and
  capsule hashes.
- `src/sandbox/runner.rs` — tool-run limits and output collection.
- `src/storage/` — content addressing and labels of artifacts.
- `src/third_party.rs` — the contracts assumed of globset, sha2, hex, uuid,
  chrono and the system clock.
- `app/` — the Tauri application: commands, SQLite storage, processes and
  files, serde forms of the library types.
