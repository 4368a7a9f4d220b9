//! The board model and the environment specification that a run is created from.
//!
//! Coordinates are carried as the IEEE-754 bit patterns of the `f32` values that
//! the user interface exchanges; nothing in this library computes with them.
use vstd::prelude::*;

verus! {

#[derive(Debug, Clone, Copy, PartialEq, Eq, Structural)]
pub enum NodeKind { Chip, Probe, Fuse, Relay, Bus, Battery, Terminal }

#[derive(Debug, Clone, Copy, PartialEq, Eq, Structural)]
pub enum EdgeKind { Trace, BusLink }

#[derive(Debug, Clone, Copy, PartialEq, Eq, Structural)]
pub enum SparkKind { Ac, Dc }

#[derive(Debug, Clone, Copy, PartialEq, Eq, Structural)]
pub enum GateStatus { Locked, Open, Tripped }

#[derive(Debug, Clone, Copy, PartialEq, Eq, Structural)]
pub enum ProbeStatus { Idle, Running, Pass, Fail }

#[derive(Debug, Clone, Copy, PartialEq, Eq, Structural)]
pub enum Direction { In, Out }

/// A 2-D point; `x` and `y` are the bit patterns of `f32` coordinates.
#[derive(Debug, Clone, Copy, PartialEq, Eq, Structural)]
pub struct Vec2 { pub x: u32, pub y: u32 }

/// A 2-D extent; `w` and `h` are the bit patterns of `f32` sizes.
#[derive(Debug, Clone, Copy, PartialEq, Eq, Structural)]
pub struct Size2 { pub w: u32, pub h: u32 }

#[derive(Debug, PartialEq, Eq)]
pub struct BoardPort {
    pub id: String,
    pub name: String,
    pub dir: Direction,
    /// The port's signal type (`type` on the wire).
    pub port_type: String,
    pub offset: Vec2,
}

} // verus!

verus! {

impl Clone for BoardPort {
    fn clone(&self) -> (res: Self)
        ensures
            res == *self,
    {
        BoardPort {
            id: self.id.clone(),
            name: self.name.clone(),
            dir: self.dir,
            port_type: self.port_type.clone(),
            offset: self.offset,
        }
    }
}

/// Clones a list whose elements clone exactly; the copy has the same view.
pub fn clone_exact_vec<T: Clone>(v: &Vec<T>) -> (r: Vec<T>)
    requires
        forall|a: T, b: T| #[trigger] cloned::<T>(a, b) ==> a == b,
    ensures
        r@ == v@,
{
    let r = v.clone();
    assert forall|i: int| 0 <= i < v@.len() implies #[trigger] r@[i] == v@[i] by {
        assert(cloned::<T>(v[i], r[i]));
    }
    assert(r@ =~= v@);
    r
}

#[derive(Debug, PartialEq, Eq)]
pub struct NodeStatus {
    pub gate: Option<GateStatus>,
    pub probe: Option<ProbeStatus>,
    /// What the node waits on (`requires` on the wire).
    pub prerequisites: Option<Vec<String>>,
    pub satisfied: Option<bool>,
}

/// The observable content of a [`NodeStatus`].
pub struct NodeStatusView {
    pub gate: Option<GateStatus>,
    pub probe: Option<ProbeStatus>,
    pub prerequisites: Option<Seq<Seq<char>>>,
    pub satisfied: Option<bool>,
}

/// The characters of an optional string.
pub open spec fn opt_str(o: Option<String>) -> Option<Seq<char>> {
    match o {
        Some(s) => Some(s@),
        None => None,
    }
}

/// The characters of each string of a list.
pub open spec fn strs(v: Seq<String>) -> Seq<Seq<char>> {
    v.map_values(|s: String| s@)
}

/// The characters of each string of an optional list.
pub open spec fn opt_strs(o: Option<Vec<String>>) -> Option<Seq<Seq<char>>> {
    match o {
        Some(v) => Some(strs(v@)),
        None => None,
    }
}

impl View for NodeStatus {
    type V = NodeStatusView;

    open spec fn view(&self) -> NodeStatusView {
        NodeStatusView {
            gate: self.gate,
            probe: self.probe,
            prerequisites: opt_strs(self.prerequisites),
            satisfied: self.satisfied,
        }
    }
}

impl Clone for NodeStatus {
    fn clone(&self) -> (res: Self)
        ensures
            res@ == self@,
    {
        let prerequisites = match &self.prerequisites {
            Some(r) => Some(clone_exact_vec(r)),
            None => None,
        };
        NodeStatus { gate: self.gate, probe: self.probe, prerequisites, satisfied: self.satisfied }
    }
}

impl Default for NodeStatus {
    fn default() -> (res: Self)
        ensures
            res.gate is None,
            res.probe is None,
            res.prerequisites is None,
            res.satisfied is None,
    {
        NodeStatus { gate: None, probe: None, prerequisites: None, satisfied: None }
    }
}

#[derive(Debug, PartialEq, Eq)]
pub struct BoardNode {
    pub id: String,
    pub kind: NodeKind,
    pub label: String,
    pub pos: Vec2,
    pub size: Option<Size2>,
    pub module_id: Option<String>,
    pub validator_id: Option<String>,
    pub gate_id: Option<String>,
    pub status: Option<NodeStatus>,
    pub ports: Option<Vec<BoardPort>>,
}

/// The observable content of a [`BoardNode`].
pub struct BoardNodeView {
    pub id: Seq<char>,
    pub kind: NodeKind,
    pub label: Seq<char>,
    pub pos: Vec2,
    pub size: Option<Size2>,
    pub module_id: Option<Seq<char>>,
    pub validator_id: Option<Seq<char>>,
    pub gate_id: Option<Seq<char>>,
    pub status: Option<NodeStatusView>,
    pub ports: Option<Seq<BoardPort>>,
}

impl View for BoardNode {
    type V = BoardNodeView;

    open spec fn view(&self) -> BoardNodeView {
        BoardNodeView {
            id: self.id@,
            kind: self.kind,
            label: self.label@,
            pos: self.pos,
            size: self.size,
            module_id: opt_str(self.module_id),
            validator_id: opt_str(self.validator_id),
            gate_id: opt_str(self.gate_id),
            status: match self.status {
                Some(s) => Some(s@),
                None => None,
            },
            ports: match self.ports {
                Some(p) => Some(p@),
                None => None,
            },
        }
    }
}

impl Clone for BoardNode {
    fn clone(&self) -> (res: Self)
        ensures
            res@ == self@,
    {
        let status = match &self.status {
            Some(s) => Some(s.clone()),
            None => None,
        };
        let ports = match &self.ports {
            Some(p) => Some(clone_exact_vec(p)),
            None => None,
        };
        BoardNode {
            id: self.id.clone(),
            kind: self.kind,
            label: self.label.clone(),
            pos: self.pos,
            size: self.size,
            module_id: self.module_id.clone(),
            validator_id: self.validator_id.clone(),
            gate_id: self.gate_id.clone(),
            status,
            ports,
        }
    }
}

#[derive(Debug, PartialEq, Eq)]
pub struct EndpointRef {
    pub node_id: String,
    pub port_id: Option<String>,
}

/// The observable content of an [`EndpointRef`].
pub struct EndpointRefView {
    pub node_id: Seq<char>,
    pub port_id: Option<Seq<char>>,
}

impl View for EndpointRef {
    type V = EndpointRefView;

    open spec fn view(&self) -> EndpointRefView {
        EndpointRefView { node_id: self.node_id@, port_id: opt_str(self.port_id) }
    }
}

impl Clone for EndpointRef {
    fn clone(&self) -> (res: Self)
        ensures
            res == *self,
    {
        EndpointRef { node_id: self.node_id.clone(), port_id: self.port_id.clone() }
    }
}

#[derive(Debug, PartialEq, Eq)]
pub struct BoardEdge {
    pub id: String,
    pub kind: EdgeKind,
    pub from: EndpointRef,
    pub to: EndpointRef,
    pub directed: bool,
    pub inline_gate_ids: Option<Vec<String>>,
    pub points: Option<Vec<Vec2>>,
}

/// The observable content of a [`BoardEdge`].
pub struct BoardEdgeView {
    pub id: Seq<char>,
    pub kind: EdgeKind,
    pub from: EndpointRefView,
    pub to: EndpointRefView,
    pub directed: bool,
    pub inline_gate_ids: Option<Seq<Seq<char>>>,
    pub points: Option<Seq<Vec2>>,
}

impl View for BoardEdge {
    type V = BoardEdgeView;

    open spec fn view(&self) -> BoardEdgeView {
        BoardEdgeView {
            id: self.id@,
            kind: self.kind,
            from: self.from@,
            to: self.to@,
            directed: self.directed,
            inline_gate_ids: opt_strs(self.inline_gate_ids),
            points: match self.points {
                Some(p) => Some(p@),
                None => None,
            },
        }
    }
}

impl Clone for BoardEdge {
    fn clone(&self) -> (res: Self)
        ensures
            res@ == self@,
    {
        let inline_gate_ids = match &self.inline_gate_ids {
            Some(g) => Some(clone_exact_vec(g)),
            None => None,
        };
        let points = match &self.points {
            Some(p) => Some(clone_exact_vec(p)),
            None => None,
        };
        BoardEdge {
            id: self.id.clone(),
            kind: self.kind,
            from: self.from.clone(),
            to: self.to.clone(),
            directed: self.directed,
            inline_gate_ids,
            points,
        }
    }
}

#[derive(Debug, PartialEq, Eq)]
pub struct SparkState {
    pub id: String,
    pub kind: SparkKind,
    pub hp: i32,
    pub carrying: Vec<String>,
    pub at_node_id: String,
    pub on_edge_id: Option<String>,
    /// Position along `on_edge_id`, as the bit pattern of an `f32`.
    pub t: Option<u32>,
}

/// The observable content of a [`SparkState`].
pub struct SparkStateView {
    pub id: Seq<char>,
    pub kind: SparkKind,
    pub hp: i32,
    pub carrying: Seq<Seq<char>>,
    pub at_node_id: Seq<char>,
    pub on_edge_id: Option<Seq<char>>,
    pub t: Option<u32>,
}

impl View for SparkState {
    type V = SparkStateView;

    open spec fn view(&self) -> SparkStateView {
        SparkStateView {
            id: self.id@,
            kind: self.kind,
            hp: self.hp,
            carrying: strs(self.carrying@),
            at_node_id: self.at_node_id@,
            on_edge_id: opt_str(self.on_edge_id),
            t: self.t,
        }
    }
}

impl Clone for SparkState {
    fn clone(&self) -> (res: Self)
        ensures
            res@ == self@,
    {
        SparkState {
            id: self.id.clone(),
            kind: self.kind,
            hp: self.hp,
            carrying: clone_exact_vec(&self.carrying),
            at_node_id: self.at_node_id.clone(),
            on_edge_id: self.on_edge_id.clone(),
            t: self.t,
        }
    }
}

} // verus!

verus! {

#[derive(Debug, Clone, PartialEq, Eq)]
pub struct BoardSnapshot {
    pub run_id: String,
    pub nodes: Vec<BoardNode>,
    pub edges: Vec<BoardEdge>,
    pub sparks: Vec<SparkState>,
}

#[derive(Debug, Clone, PartialEq, Eq)]
pub struct BoardDiff {
    pub upsert_nodes: Option<Vec<BoardNode>>,
    pub delete_node_ids: Option<Vec<String>>,
    pub upsert_edges: Option<Vec<BoardEdge>>,
    pub delete_edge_ids: Option<Vec<String>>,
    pub upsert_sparks: Option<Vec<SparkState>>,
}

#[derive(Debug, Clone, PartialEq, Eq)]
pub struct VisibleSlice {
    pub nodes: Vec<BoardNode>,
    pub edges: Vec<BoardEdge>,
}

#[derive(Debug, PartialEq, Eq)]
pub struct SignalMsg {
    pub from: String,
    pub payload: serde_json::Value,
    pub ts: i64,
    pub to_spark_id: Option<String>,
}

impl Clone for SignalMsg {
    fn clone(&self) -> (res: Self)
        ensures
            res == *self,
    {
        SignalMsg {
            from: self.from.clone(),
            payload: self.payload.clone(),
            ts: self.ts,
            to_spark_id: self.to_spark_id.clone(),
        }
    }
}

// ---- EnvironmentSpec ----

#[derive(Debug, PartialEq, Eq)]
pub struct EnvironmentSpec {
    pub id: String,
    pub name: String,
    pub language_profile: String,
    pub team: TeamConfig,
    pub board: BoardSpec,
    pub gates: Vec<GateSpec>,
    pub validators: Vec<ValidatorSpec>,
    pub permissions: PermissionsSpec,
    pub hp: HpSpec,
}

#[derive(Debug, Clone, PartialEq, Eq)]
pub struct TeamConfig {
    pub sparks: Vec<TeamSpark>,
    pub dc_config_mode: String,
}

#[derive(Debug, Clone, PartialEq, Eq)]
pub struct TeamSpark {
    pub id: String,
    pub kind: SparkKind,
}

#[derive(Debug, Clone, PartialEq, Eq)]
pub struct BoardSpec {
    pub nodes: Vec<BoardNode>,
    pub edges: Vec<BoardEdge>,
}

#[derive(Debug, PartialEq, Eq)]
pub struct GateSpec {
    pub id: String,
    /// `fuse` or `relay` (also `unit`, `integration` for healing purposes).
    pub kind: String,
    pub predicate: Predicate,
    pub prerequisites: Option<Vec<Predicate>>,
}

#[derive(Debug, PartialEq, Eq)]
pub enum Predicate {
    ProbePass { probe_id: String },
    All { of: Vec<Predicate> },
    LintPass,
    TypecheckPass,
    CoverageAtLeast { pct: u32 },
    PatchCapsulePresent,
    EvidenceSetPresent { validators: Vec<String> },
    ChecklistPresent { rubric_at_least: u32 },
}

#[derive(Debug, Clone, PartialEq, Eq)]
pub struct ValidatorSpec {
    pub id: String,
    /// e.g. `test`, `unit`, `integration`, `quality`, `lint`, `typecheck`, `coverage`.
    pub kind: String,
    pub cmd: Option<Vec<String>>,
    pub steps: Option<Vec<ValidatorStep>>,
}

#[derive(Debug, Clone, PartialEq, Eq)]
pub struct ValidatorStep {
    pub cmd: Vec<String>,
}

#[derive(Debug, Clone, PartialEq, Eq)]
pub struct PermissionsSpec {
    pub ac: RolePerms,
    pub dc: RolePerms,
}

#[derive(Debug, Clone, PartialEq, Eq)]
pub struct RolePerms {
    pub allow_edit_paths: Option<Vec<String>>,
    pub deny_edit_paths: Option<Vec<String>>,
    pub allow_config_paths: Option<Vec<String>>,
    pub deny_commands: Option<Vec<String>>,
}

#[derive(Debug, Clone, Copy, PartialEq, Eq, Structural)]
pub struct HpSpec {
    pub max: i32,
    pub start: i32,
    pub damage: HpDamage,
    pub heal: HpHeal,
    pub anti_thrash: Option<AntiThrashSpec>,
}

#[derive(Debug, Clone, Copy, PartialEq, Eq, Structural)]
pub struct HpDamage {
    pub unit_fail: i32,
    pub integration_fail: i32,
    pub quality_fail: i32,
    pub policy_violation_attempt: i32,
}

#[derive(Debug, Clone, Copy, PartialEq, Eq, Structural)]
pub struct HpHeal {
    pub unlock_gate_unit: i32,
    pub unlock_gate_integration: i32,
    pub clean_run_all: i32,
}

#[derive(Debug, Clone, Copy, PartialEq, Eq, Structural)]
pub struct AntiThrashSpec {
    pub repeat_failure_signature_after: u32,
    pub extra_damage: i32,
}

} // verus!
