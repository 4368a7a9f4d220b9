//! The shapes of the requests and responses of the application's command
//! surface, and the mapping of world errors to the error codes it answers with.
use vstd::prelude::*;
use crate::engine::world::WorldError;
use crate::schemas::construct::{ConstructSpecRef, ConstructSpecWrapper};
use crate::schemas::environment::{clone_exact_vec, BoardDiff, BoardSnapshot, SignalMsg, SparkState, VisibleSlice};
use crate::text::owned;
use crate::third_party::{duration_as_millis, since_unix_epoch, system_time_now};

verus! {

/// An error answered by a command: a stable code and a human-readable message.
#[derive(Debug)]
pub struct ApiError {
    pub code: String,
    pub message: String,
    pub detail: Option<serde_json::Value>,
}

/// The code that answers a world error.
pub open spec fn world_error_code(e: WorldError) -> Seq<char> {
    match e {
        WorldError::AclViolation(_) => "ACL_VIOLATION"@,
        WorldError::NotFound(_) => "NOT_FOUND"@,
        WorldError::InvalidRequest(_) => "INVALID"@,
        WorldError::Internal(_) => "INTERNAL"@,
        WorldError::PathTraversal(_) => "SECURITY_VIOLATION"@,
    }
}

/// The message a world error carries (without its display prefix).
pub open spec fn world_error_text(e: WorldError) -> Seq<char> {
    match e {
        WorldError::AclViolation(m) => m@,
        WorldError::NotFound(m) => m@,
        WorldError::InvalidRequest(m) => m@,
        WorldError::Internal(m) => m@,
        WorldError::PathTraversal(m) => m@,
    }
}

impl ApiError {
    /// An error with the given code and message and no detail.
    pub fn new(code: &str, message: &str) -> (r: ApiError)
        ensures
            r.code@ == code@,
            r.message@ == message@,
            r.detail is None,
    {
        ApiError { code: owned(code), message: owned(message), detail: None }
    }

    /// The answer to a world error: its code and its bare message.
    pub fn from_world(err: WorldError) -> (r: ApiError)
        ensures
            r.code@ == world_error_code(err),
            r.message@ == world_error_text(err),
            r.detail is None,
    {
        match err {
            WorldError::AclViolation(m) => ApiError { code: owned("ACL_VIOLATION"), message: m, detail: None },
            WorldError::NotFound(m) => ApiError { code: owned("NOT_FOUND"), message: m, detail: None },
            WorldError::InvalidRequest(m) => ApiError { code: owned("INVALID"), message: m, detail: None },
            WorldError::Internal(m) => ApiError { code: owned("INTERNAL"), message: m, detail: None },
            WorldError::PathTraversal(m) => ApiError { code: owned("SECURITY_VIOLATION"), message: m, detail: None },
        }
    }
}

/// What a command answers.
pub type ApiResult<T> = Result<T, ApiError>;

/// Milliseconds since the Unix epoch, truncated to `u64`; 0 when the clock
/// reads earlier than the epoch. Nothing is stated of the clock's reading.
pub fn now_ms_u64() -> u64 {
    let t = system_time_now();
    let elapsed_ms = match since_unix_epoch(&t) {
        Ok(d) => Some(duration_as_millis(&d)),
        Err(_) => None,
    };
    millis_or_zero(elapsed_ms)
}

/// The timestamp sent with a command's events: the milliseconds since the
/// epoch, truncated to `u64` as `as` truncates; 0 for a reading before the epoch.
pub fn millis_or_zero(elapsed_ms: Option<u128>) -> (r: u64)
    ensures
        r == match elapsed_ms {
            Some(ms) => ms as u64,
            None => 0u64,
        },
{
    match elapsed_ms {
        Some(ms) => ms as u64,
        None => 0,
    }
}

// ---------- Run lifecycle ----------

#[derive(Debug, Clone, PartialEq, Eq)]
pub struct RunCreateReq {
    pub env_spec_path: String,
    pub seed: Option<u64>,
}

#[derive(Debug, Clone, PartialEq, Eq)]
pub struct RunCreateRes {
    pub run_id: String,
    pub workspace_path: String,
    pub board: BoardSnapshot,
}

#[derive(Debug, Clone, PartialEq, Eq)]
pub struct RunLoadReq {
    pub run_id: String,
}

#[derive(Debug, Clone, PartialEq, Eq)]
pub struct RunLoadRes {
    pub run_id: String,
    pub board: BoardSnapshot,
}

#[derive(Debug, Clone, PartialEq, Eq)]
pub struct RunResetReq {
    pub run_id: String,
}

// ---------- Generation ----------

/// A spark requested for a generated scenario; `kind` is `ac` or `dc`.
#[derive(Debug, PartialEq, Eq)]
pub struct SparkSpec {
    pub id: String,
    pub kind: String,
}

impl Clone for SparkSpec {
    fn clone(&self) -> (res: Self)
        ensures
            res == *self,
    {
        SparkSpec { id: self.id.clone(), kind: self.kind.clone() }
    }
}

/// The team requested for a generated scenario.
#[derive(Debug, PartialEq, Eq)]
pub struct TeamSpec {
    pub sparks: Vec<SparkSpec>,
    pub dc_config_mode: String,
}

/// The two teams request the same sparks in the same configuration mode.
pub open spec fn same_team(a: TeamSpec, b: TeamSpec) -> bool {
    a.sparks@ == b.sparks@ && a.dc_config_mode == b.dc_config_mode
}

impl Clone for TeamSpec {
    fn clone(&self) -> (res: Self)
        ensures
            same_team(res, *self),
    {
        TeamSpec { sparks: clone_exact_vec(&self.sparks), dc_config_mode: self.dc_config_mode.clone() }
    }
}

#[derive(Debug, Clone, PartialEq, Eq)]
pub struct CompileProblemReq {
    pub prompt: String,
    pub language_profile: String,
    pub difficulty: String,
    pub team: TeamSpec,
}

#[derive(Debug, Clone, PartialEq, Eq)]
pub struct CompileProblemRes {
    pub problem_spec_path: String,
}

#[derive(Debug, Clone, PartialEq, Eq)]
pub struct GenerateEnvironmentReq {
    pub problem_spec_path: String,
    pub out_dir: String,
}

#[derive(Debug, Clone, PartialEq, Eq)]
pub struct GenerateEnvironmentRes {
    pub env_spec_path: String,
    pub repo_template_path: String,
}

// ---------- World observe/act ----------

#[derive(Debug, Clone, PartialEq, Eq)]
pub struct ObserveReq {
    pub run_id: String,
    pub spark_id: String,
}

#[derive(Debug, Clone, PartialEq, Eq)]
pub struct ObserveRes {
    pub spark: SparkState,
    pub visible: VisibleSlice,
    pub inbox: Vec<SignalMsg>,
}

/// A move or an energize action of a spark.
#[derive(Debug, Clone, PartialEq, Eq)]
pub enum WorldAction {
    Move { run_id: String, spark_id: String, to_node_id: String },
    Energize { run_id: String, spark_id: String, object_id: String },
}

#[derive(Debug, Clone, PartialEq, Eq)]
pub struct ActReq {
    pub action: WorldAction,
}

#[derive(Debug, Clone, PartialEq, Eq)]
pub struct ActRes {
    pub diff: Option<BoardDiff>,
}

// ---------- AC surface ----------

/// New contents for one workspace file.
#[derive(Debug, Clone, PartialEq, Eq)]
pub struct FileEdit {
    pub path: String,
    pub contents: String,
}

#[derive(Debug, Clone, PartialEq, Eq)]
pub struct EditFilesReq {
    pub run_id: String,
    pub spark_id: String,
    pub edits: Vec<FileEdit>,
}

// ---------- Constructs ----------

#[derive(Debug, Clone, PartialEq, Eq)]
pub struct ConstructDefineReq {
    pub run_id: String,
    pub spec: ConstructSpecWrapper,
}

#[derive(Debug, Clone, PartialEq, Eq)]
pub struct ConstructDefineRes {
    pub construct_id: String,
}

#[derive(Debug, Clone, PartialEq, Eq)]
pub struct ConstructUpdateSpecReq {
    pub construct_id: String,
    pub spec: ConstructSpecWrapper,
    pub run_id: String,
}

#[derive(Debug, Clone, PartialEq, Eq)]
pub struct ConstructGetReq {
    pub construct_id: String,
}

#[derive(Debug, Clone, PartialEq, Eq)]
pub struct ConstructGetRes {
    pub spec_ref: ConstructSpecRef,
}

#[derive(Debug, Clone, PartialEq, Eq)]
pub struct ConstructEvaluateReq {
    pub run_id: String,
    pub construct_id: String,
}

#[derive(Debug, Clone, PartialEq, Eq)]
pub struct ConstructListReq {
    pub run_id: String,
}

#[derive(Debug, Clone, PartialEq, Eq)]
pub struct CreatePatchReq {
    pub run_id: String,
    pub spark_id: String,
    pub message: String,
    pub intent: Option<String>,
    pub risk: Option<String>,
}

#[derive(Debug, Clone, PartialEq, Eq)]
pub struct CreatePatchRes {
    pub patch_id: String,
    pub item_id: String,
    pub touched_paths: Vec<String>,
}

// ---------- DC surface ----------

#[derive(Debug, Clone, PartialEq, Eq)]
pub struct ApplyPatchReq {
    pub run_id: String,
    pub spark_id: String,
    pub patch_id: String,
}

#[derive(Debug, Clone, PartialEq, Eq)]
pub struct RunProbeReq {
    pub run_id: String,
    pub spark_id: String,
    pub probe_id: String,
}

#[derive(Debug, Clone, PartialEq, Eq)]
pub struct RunProbeRes {
    pub probe_id: String,
    pub status: String,
    pub evidence_item_ids: Vec<String>,
    pub artifact_refs: Vec<String>,
    pub failure_signature: Option<String>,
}

#[derive(Debug)]
pub struct SubmitChecklistReq {
    pub run_id: String,
    pub spark_id: String,
    pub relay_id: String,
    pub checklist: serde_json::Value,
}

#[derive(Debug, Clone, PartialEq, Eq)]
pub struct SubmitChecklistRes {
    pub checklist_id: String,
}

#[derive(Debug, Clone, PartialEq, Eq)]
pub struct CloseRelayReq {
    pub run_id: String,
    pub spark_id: String,
    pub relay_id: String,
}

#[derive(Debug, Clone, PartialEq, Eq)]
pub struct DcEditConfigReq {
    pub run_id: String,
    pub spark_id: String,
    pub reason: String,
    pub edits: Vec<FileEdit>,
}

#[derive(Debug, Clone, PartialEq, Eq)]
pub struct DcEditConfigRes {
    pub edited_paths: Vec<String>,
}

// ---------- Human sign-off ----------

/// The three checks of a weekly human audit.
#[derive(Debug, Clone, Copy, PartialEq, Eq)]
pub struct HitlChecks {
    pub reality_contact: bool,
    pub distance_reduction: bool,
    pub anti_goodhart: bool,
}

#[derive(Debug, Clone, PartialEq, Eq)]
pub struct HitlSignoffWriteReq {
    pub run_id: String,
    pub construct_root: String,
    pub cycle_day: String,
    /// `approved` or `rejected`.
    pub decision: String,
    pub checks: HitlChecks,
    pub notes: Option<String>,
    pub artifacts_reviewed: Vec<String>,
}

#[derive(Debug, Clone, PartialEq, Eq)]
pub struct HitlSignoffWriteRes {
    pub written_path: String,
    pub capsule_hash: String,
}

} // verus!
