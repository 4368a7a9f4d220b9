//! The construct schema: the authored specification of a target artifact and
//! the result of evaluating it against a run's event log.
use vstd::prelude::*;

verus! {

#[derive(Debug, Clone, Copy, PartialEq, Eq, Structural)]
pub enum ConstructKind { Cli, Service, Library, Schema, Pipeline }

#[derive(Debug, Clone, Copy, PartialEq, Eq, Structural)]
pub enum ExportType { Command, HttpEndpoint, LibraryApi, FileArtifact }

#[derive(Debug, Clone, PartialEq, Eq)]
pub struct InterfaceExport {
    pub id: String,
    /// The kind of surface this export is (`type` in the authored schema).
    pub export_type: ExportType,
    pub signature: String,
    pub notes: Option<String>,
}

#[derive(Debug, Clone, PartialEq, Eq)]
pub struct Interface {
    pub exports: Vec<InterfaceExport>,
}

#[derive(Debug, Clone, Copy, PartialEq, Eq, Structural)]
pub enum InvariantSeverity { Must, Should }

#[derive(Debug, Clone, PartialEq, Eq)]
pub struct Invariant {
    pub id: String,
    pub statement: String,
    pub severity: InvariantSeverity,
    /// Reference to the probe that establishes the invariant, e.g. `probe:<probe_id>`.
    pub probe_ref: String,
}

#[derive(Debug, Clone, Copy, PartialEq, Eq, Structural)]
pub enum PassPolicyMode { All }

#[derive(Debug, Clone, Copy, PartialEq, Eq, Structural)]
pub struct PassPolicy {
    pub mode: PassPolicyMode,
}

#[derive(Debug, Clone, PartialEq, Eq)]
pub struct Acceptance {
    pub required_probes: Vec<String>,
    pub pass_policy: PassPolicy,
}

#[derive(Debug, Clone, PartialEq, Eq)]
pub struct ConstructDependency {
    pub construct_id: String,
    /// `pinned` or `latest_in_run`.
    pub version: String,
    pub mount: Option<String>,
}

#[derive(Debug, Clone, PartialEq, Eq)]
pub struct CapsuleDependency {
    pub capsule_id: String,
    /// `generator`, `patch` or `probe`.
    pub role: String,
}

#[derive(Debug, Clone, PartialEq, Eq)]
pub struct Dependencies {
    pub constructs: Option<Vec<ConstructDependency>>,
    pub capsules: Option<Vec<CapsuleDependency>>,
}

#[derive(Debug, Clone, PartialEq, Eq)]
pub struct ConstructSpec {
    pub id: String,
    pub kind: ConstructKind,
    pub name: String,
    pub description: String,
    /// Workspace-relative directory under which the construct lives.
    pub root: String,
    pub interface: Interface,
    pub invariants: Vec<Invariant>,
    pub acceptance: Acceptance,
    pub dependencies: Option<Dependencies>,
    pub metadata: Option<serde_json::Value>,
}

#[derive(Debug, Clone, PartialEq, Eq)]
pub struct ConstructSpecWrapper {
    pub construct: ConstructSpec,
}

#[derive(Debug, Clone, PartialEq, Eq)]
pub struct ConstructSpecRef {
    pub spec: ConstructSpec,
    pub revision: i64,
    pub spec_hash: String,
    pub created_at_ms: i64,
}

#[derive(Debug, Clone, Copy, PartialEq, Eq, Structural)]
pub enum ConstructStatus { Draft, Active, Certified, Regressed, Archived }

#[derive(Debug, Clone, PartialEq, Eq)]
pub struct EvaluateResult {
    pub status: ConstructStatus,
    pub missing_probes: Vec<String>,
    pub failing_probes: Vec<String>,
    pub satisfied_invariants: Vec<String>,
}

} // verus!
