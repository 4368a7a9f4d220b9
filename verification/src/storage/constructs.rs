//! Registered constructs and the hashing of their specifications.
use vstd::prelude::*;
use crate::schemas::construct::ConstructKind;
use vstd::string::StringSliceAdditionalSpecFns;
use crate::storage::artifacts::{content_address, content_id, millis_as_i64};
use crate::third_party::{duration_as_millis, since_unix_epoch, system_time_now};

verus! {

/// A construct registered for a run.
#[derive(Debug, Clone, PartialEq, Eq)]
pub struct Construct {
    pub construct_id: String,
    pub run_id: String,
    pub kind: ConstructKind,
    pub name: String,
    pub root: String,
    pub created_at_ms: i64,
}

/// The hash recorded for a specification text: the lowercase hex SHA-256 of
/// its UTF-8 bytes.
pub fn compute_hash(content: &str) -> (r: String)
    ensures
        r@ == content_id(content.spec_bytes()),
{
    content_address(content.as_bytes())
}

/// Milliseconds since the Unix epoch, truncated to `i64`; `None` when the
/// clock reads earlier than the epoch.
pub fn now_ms() -> (r: Option<i64>) {
    let t = system_time_now();
    let elapsed_ms = match since_unix_epoch(&t) {
        Ok(d) => Some(duration_as_millis(&d)),
        Err(_) => None,
    };
    millis_as_i64(elapsed_ms)
}

} // verus!
