//! What the library computes for the event log, the artifact store, the
//! construct registry and the tool-run records.
pub mod event_log;
pub mod artifacts;
pub mod constructs;
pub mod tool_runs;
