//! Content addressing of artifacts.
use vstd::prelude::*;
use crate::third_party::{
    duration_as_millis, hex_encode, hex_lower, sha256, sha256_digest, since_unix_epoch,
    system_time_now,
};
use crate::engine::world::concat;
use crate::text::{decimal, i64_to_decimal, u64_to_decimal};

verus! {

/// Where a stored artifact lives: its content address and its path under the store root.
#[derive(Debug, Clone, PartialEq, Eq)]
pub struct ArtifactRef {
    pub artifact_id: String,
    pub rel_path: String,
}

/// The content address of bytes: the lowercase hex of their SHA-256 digest.
pub open spec fn content_id(bytes: Seq<u8>) -> Seq<char> {
    hex_lower(sha256(bytes))
}

proof fn lemma_hex_len(bytes: Seq<u8>)
    ensures
        hex_lower(bytes).len() == 2 * bytes.len(),
    decreases bytes.len(),
{
    if bytes.len() > 0 {
        lemma_hex_len(bytes.drop_last());
    }
}

/// The content address of the bytes (64 hex digits).
pub fn content_address(bytes: &[u8]) -> (r: String)
    ensures
        r@ == content_id(bytes@),
        r@.len() == 64,
{
    let digest = sha256_digest(bytes);
    proof {
        lemma_hex_len(digest@);
    }
    hex_encode(digest.as_slice())
}

/// Where an artifact is stored: `<first two digits>/<artifact id>`.
pub open spec fn artifact_path(artifact_id: Seq<char>) -> Seq<char> {
    artifact_id.subrange(0, 2) + "/"@ + artifact_id
}

/// The store reference for the bytes: their content address and its path.
pub fn artifact_ref_for(bytes: &[u8]) -> (r: ArtifactRef)
    ensures
        r.artifact_id@ == content_id(bytes@),
        r.rel_path@ == artifact_path(content_id(bytes@)),
{
    let artifact_id = content_address(bytes);
    let subdir = artifact_id.as_str().substring_char(0, 2);
    let mut rel_path = concat(subdir, "/");
    rel_path.append(artifact_id.as_str());
    ArtifactRef { artifact_id, rel_path }
}

/// `patch/` followed by the first sixteen digits of the content address.
pub open spec fn patch_label_of(bytes: Seq<u8>) -> Seq<char> {
    "patch/"@ + content_id(bytes).subrange(0, 16)
}

/// The label under which a patch capsule is linked to its run.
pub fn patch_label(bytes: &[u8]) -> (r: String)
    ensures
        r@ == patch_label_of(bytes@),
{
    let id = content_address(bytes);
    concat("patch/", id.as_str().substring_char(0, 16))
}

/// Milliseconds since the Unix epoch, truncated to `i64`; `None` when the
/// clock reads earlier than the epoch.
pub fn now_ms_i64() -> (r: Option<i64>) {
    let t = system_time_now();
    let elapsed_ms = match since_unix_epoch(&t) {
        Ok(d) => Some(duration_as_millis(&d)),
        Err(_) => None,
    };
    millis_as_i64(elapsed_ms)
}

/// The timestamp kept for a clock reading: the milliseconds since the epoch,
/// truncated to `i64` as `as` truncates; `None` for a reading before the epoch.
pub fn millis_as_i64(elapsed_ms: Option<u128>) -> (r: Option<i64>)
    ensures
        r == match elapsed_ms {
            Some(ms) => Some(ms as i64),
            None => None::<i64>,
        },
{
    match elapsed_ms {
        Some(ms) => Some(ms as i64),
        None => None,
    }
}

/// The label of the output of a probe step: `<probe id>/step<step>/<stream>`.
pub fn step_output_label(probe_id: &str, step: u64, stream: &str) -> (r: String)
    ensures
        r@ == probe_id@ + "/step"@ + decimal(step as int) + "/"@ + stream@,
{
    let mut r = concat(probe_id, "/step");
    let n = u64_to_decimal(step);
    r.append(n.as_str());
    r.append("/");
    r.append(stream);
    r
}

/// The label of the evidence of a probe run: `<probe id>/evidence`.
pub fn evidence_label(probe_id: &str) -> (r: String)
    ensures
        r@ == probe_id@ + "/evidence"@,
{
    concat(probe_id, "/evidence")
}

/// The label of a submitted checklist: `checklists/<relay id>/<millis>_<id>`.
pub fn checklist_label(relay_id: &str, millis: i64, id: &str) -> (r: String)
    ensures
        r@ == "checklists/"@ + relay_id@ + "/"@ + decimal(millis as int) + "_"@ + id@,
{
    let mut r = concat("checklists/", relay_id);
    r.append("/");
    let n = i64_to_decimal(millis);
    r.append(n.as_str());
    r.append("_");
    r.append(id);
    r
}

} // verus!
