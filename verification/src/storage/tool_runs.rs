//! Timestamps of tool-run records.
use vstd::prelude::*;
use crate::third_party::{duration_as_millis, since_unix_epoch, system_time_now};
use crate::storage::artifacts::millis_as_i64;

verus! {

/// Milliseconds since the Unix epoch, truncated to `i64`; `None` when the
/// clock reads earlier than the epoch.
pub fn now_ms() -> (r: Option<i64>) {
    let t = system_time_now();
    let elapsed_ms = match since_unix_epoch(&t) {
        Ok(d) => Some(duration_as_millis(&d)),
        Err(_) => None,
    };
    millis_as_i64(elapsed_ms)
}

} // verus!
