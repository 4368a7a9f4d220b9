//! The shape in which the library receives the entries of a run's event log.
use vstd::prelude::*;
use crate::third_party::{duration_as_millis, since_unix_epoch, system_time_now};

verus! {

/// The fields of an event's JSON payload that the library reads.
///
/// Each `String` field holds the string found under the payload key of the same
/// name in camelCase (`probeId`, `touchedPaths`, ...), and is `None` when the key
/// is absent or holds another JSON type; `hp_delta` likewise holds an integer
/// that fits in `i64`. A list field holds the string elements of a JSON array,
/// in order, and is `None` when the key does not hold an array.
#[derive(Debug, Clone, PartialEq, Eq)]
pub struct EventPayload {
    pub touched_paths: Option<Vec<String>>,
    pub probe_id: Option<String>,
    pub status: Option<String>,
    pub failure_signature: Option<String>,
    pub evidence_item_id: Option<String>,
    pub spark_id: Option<String>,
    pub hp_delta: Option<i64>,
    pub opened_gate_ids: Option<Vec<String>>,
    pub relay_id: Option<String>,
    pub item_id: Option<String>,
    pub to_node_id: Option<String>,
    pub object_id: Option<String>,
}

/// One entry of a run's append-only event log.
#[derive(Debug, Clone, PartialEq, Eq)]
pub struct RunEvent {
    pub seq: u64,
    pub event_type: String,
    pub payload: EventPayload,
}

impl EventPayload {
    /// A payload with no field present.
    pub fn empty() -> (r: EventPayload)
        ensures
            r.touched_paths is None,
            r.probe_id is None,
            r.status is None,
            r.failure_signature is None,
            r.evidence_item_id is None,
            r.spark_id is None,
            r.hp_delta is None,
            r.opened_gate_ids is None,
            r.relay_id is None,
            r.item_id is None,
            r.to_node_id is None,
            r.object_id is None,
    {
        EventPayload {
            touched_paths: None,
            probe_id: None,
            status: None,
            failure_signature: None,
            evidence_item_id: None,
            spark_id: None,
            hp_delta: None,
            opened_gate_ids: None,
            relay_id: None,
            item_id: None,
            to_node_id: None,
            object_id: None,
        }
    }
}


/// Where a run's environment and workspace live.
#[derive(Debug, Clone, PartialEq, Eq)]
pub struct RunInfo {
    pub env_spec_path: String,
    pub workspace_path: String,
    pub seed: Option<u64>,
}

/// Milliseconds since the Unix epoch; `None` when the clock reads earlier.
pub fn now_ms() -> Option<u128> {
    let t = system_time_now();
    match since_unix_epoch(&t) {
        Ok(d) => Some(duration_as_millis(&d)),
        Err(_) => None,
    }
}

} // verus!
