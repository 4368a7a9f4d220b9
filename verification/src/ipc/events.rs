//! The envelope in which board updates are pushed to the user interface.
use vstd::prelude::*;

verus! {

/// A numbered event of a run, as pushed to the user interface.
#[derive(Debug, Clone, PartialEq, Eq)]
pub struct EventEnvelope<T: Clone> {
    pub run_id: String,
    pub seq: u64,
    pub ts: u64,
    /// The event's name, e.g. `board.diff` (`type` on the wire).
    pub event_type: String,
    pub payload: T,
}

} // verus!
