//! The state of a run and the rules that decide what players may do to it.
use vstd::prelude::*;
use crate::engine::board::{
    lemma_find_spark, board_state, event_step, sparks_carry, initial_board_state, lemma_replay_sparks, initial_node, initial_snapshot, initial_spark, max_seq, replay, replay_events,
    replay_fits,
    clamp_all, clamp_all_fits, clamp_hp_all, clamp_hp_all_checked, lemma_push_first_hp, dedup_by_id, dedup_nodes, guards_one_of, has_spark,
    mark_probe, nodes_open_gates, nodes_with_probe, open_gates, push_first, push_item_first, carry_item, with_carried, hand_item_to_dcs, hand_to_dcs, sparks_after_patch,
    heal_for, heal_all, heal_fits, heal_sparks, kinds_of_gates, opened_kinds, first_gate_with_id, find_gate_index,
    lemma_clamp_all_keeps_ids, lemma_heal_keeps_ids, lemma_push_first_ids, lemma_event_names_distinct, lemma_heal_fits_prefix, lemma_same_ids_has_spark,
    change_hp, contains_str, find_spark, find_spark_index, find_visible_node_ids, hp_fits,
    mark_gate, mark_satisfied, move_spark, nodes_satisfied, nodes_with_gate, sparks_hp,
    sparks_hp_fits, sparks_move, spark_views, within,
};
use crate::schemas::environment::{
    BoardDiff, BoardEdge, BoardNode, BoardNodeView, BoardSnapshot, EnvironmentSpec, GateStatus,
    ProbeStatus, SignalMsg, SparkState, SparkStateView, VisibleSlice, opt_str, strs,
};
use crate::schemas::environment::{GateSpec, HpSpec, Predicate, ValidatorSpec};
use crate::text::{chars_of, decimal, i32_to_decimal, owned, str_eq};
use crate::third_party::{
    glob_compiles, glob_error_text, glob_new, glob_set_builder_add, glob_set_builder_build,
    glob_set_builder_new, glob_set_builds, glob_set_is_match, glob_set_patterns, some_glob_matches,
};
use crate::ipc::commands::FileEdit;
use crate::schemas::environment::{SparkKind, RolePerms, TeamSpark};
use crate::ipc::commands::WorldAction;

verus! {

/// Why a world operation was refused.
#[derive(Debug, PartialEq, Eq)]
pub enum WorldError {
    AclViolation(String),
    NotFound(String),
    Internal(String),
    InvalidRequest(String),
    PathTraversal(String),
}

/// The display text of an error.
pub open spec fn error_message(e: WorldError) -> Seq<char> {
    match e {
        WorldError::AclViolation(m) => "ACL Violation: "@ + m@,
        WorldError::NotFound(m) => "Not found: "@ + m@,
        WorldError::Internal(m) => "Internal error: "@ + m@,
        WorldError::InvalidRequest(m) => "Invalid request: "@ + m@,
        WorldError::PathTraversal(m) => "Security: Path Traversal Attempt: "@ + m@,
    }
}

/// `prefix` followed by `rest`.
pub fn concat(prefix: &str, rest: &str) -> (r: String)
    ensures
        r@ == prefix@ + rest@,
{
    let mut s = owned(prefix);
    s.append(rest);
    s
}

impl WorldError {
    /// The error's display text, e.g. `ACL Violation: spark is not AC`.
    pub fn to_message(&self) -> (r: String)
        ensures
            r@ == error_message(*self),
    {
        match self {
            WorldError::AclViolation(m) => concat("ACL Violation: ", m.as_str()),
            WorldError::NotFound(m) => concat("Not found: ", m.as_str()),
            WorldError::Internal(m) => concat("Internal error: ", m.as_str()),
            WorldError::InvalidRequest(m) => concat("Invalid request: ", m.as_str()),
            WorldError::PathTraversal(m) => concat("Security: Path Traversal Attempt: ", m.as_str()),
        }
    }
}

/// Everything the world holds about one run.
pub struct RunState {
    pub env_spec_path: String,
    pub workspace_path: String,
    pub env: EnvironmentSpec,
    pub snapshot: BoardSnapshot,
    /// Paths edited by the AC since its last patch.
    pub last_edits: Vec<String>,
    /// Failure signatures of failed probe runs, oldest first.
    pub failure_history: Vec<String>,
    /// Ids of the patch capsules created in the run, oldest first.
    pub patches: Vec<String>,
    pub inbox: Vec<SignalMsg>,
    pub seed: Option<u64>,
}

/// How far a spark can see, in steps along the board's edges.
pub const VISIBILITY_RANGE: u32 = 2;

/// A node is visible from `at` when it is within range.
pub open spec fn node_visible(edges: Seq<BoardEdge>, at: Seq<char>, n: BoardNode) -> bool {
    within(edges, at, VISIBILITY_RANGE as nat, n.id@)
}

/// An edge is visible from `at` when one of its ends is within range.
pub open spec fn edge_visible(edges: Seq<BoardEdge>, at: Seq<char>, e: BoardEdge) -> bool {
    within(edges, at, VISIBILITY_RANGE as nat, e.from.node_id@) || within(
        edges,
        at,
        VISIBILITY_RANGE as nat,
        e.to.node_id@,
    )
}

/// A signal reaches a spark when it is addressed to it or to everyone.
pub open spec fn signal_for(m: SignalMsg, spark_id: Seq<char>) -> bool {
    opt_str(m.to_spark_id) == Some(spark_id) || m.to_spark_id is None
}

pub open spec fn node_view() -> spec_fn(BoardNode) -> BoardNodeView {
    |n: BoardNode| n@
}

pub open spec fn edge_view() -> spec_fn(BoardEdge) -> crate::schemas::environment::BoardEdgeView {
    |e: BoardEdge| e@
}

pub open spec fn node_visible_pred(edges: Seq<BoardEdge>, at: Seq<char>) -> spec_fn(BoardNode) -> bool {
    |n: BoardNode| node_visible(edges, at, n)
}

pub open spec fn edge_visible_pred(edges: Seq<BoardEdge>, at: Seq<char>) -> spec_fn(BoardEdge) -> bool {
    |e: BoardEdge| edge_visible(edges, at, e)
}

pub open spec fn signal_pred(spark_id: Seq<char>) -> spec_fn(SignalMsg) -> bool {
    |m: SignalMsg| signal_for(m, spark_id)
}

/// What a spark of the run perceives: itself, the nodes within range of
/// where it stands and the edges touching them, and the signals addressed to
/// it or to everyone; `unknown spark` when the run has no such spark.
pub open spec fn observation_of(st: RunState, spark_id: Seq<char>, r: Result<(SparkState, VisibleSlice, Vec<SignalMsg>), String>) -> bool {
    match r {
        Err(m) => m@ == "unknown spark"@ && find_spark(spark_views(st.snapshot.sparks@), spark_id) is None,
        Ok((spark, visible, signals)) => {
            let views = spark_views(st.snapshot.sparks@);
            let at = spark@.at_node_id;
            let edges = st.snapshot.edges@;
            &&& find_spark(views, spark_id) matches Some(i) && spark@ == views[i]
            &&& visible.nodes@.map_values(node_view()) == st.snapshot.nodes@.filter(
                node_visible_pred(edges, at),
            ).map_values(node_view())
            &&& visible.edges@.map_values(edge_view()) == edges.filter(
                edge_visible_pred(edges, at),
            ).map_values(edge_view())
            &&& signals@ == st.inbox@.filter(signal_pred(spark_id))
        },
    }
}

impl RunState {
    /// What a spark perceives: itself, the nodes within range of where it
    /// stands and the edges touching them, and the signals addressed to it or
    /// to everyone. Fails with `unknown spark` when the run has no such spark.
    pub fn observe(&self, spark_id: &String) -> (r: Result<(SparkState, VisibleSlice, Vec<SignalMsg>), String>)
        ensures
            observation_of(*self, spark_id@, r),
    {
        let idx = match find_spark_index(&self.snapshot.sparks, spark_id) {
            Some(i) => i,
            None => {
                return Err(owned("unknown spark"));
            },
        };
        let spark = self.snapshot.sparks[idx].clone();
        proof {
            assert(spark_views(self.snapshot.sparks@)[idx as int] == self.snapshot.sparks@[idx as int]@);
        }
        let visible_ids = find_visible_node_ids(&self.snapshot.edges, &spark.at_node_id, VISIBILITY_RANGE);
        let ghost edges = self.snapshot.edges@;
        let ghost at = spark@.at_node_id;

        let mut nodes: Vec<BoardNode> = Vec::new();
        let src = &self.snapshot.nodes;
        for i in 0..src.len()
            invariant
                src == &self.snapshot.nodes,
                edges == self.snapshot.edges@,
                at == spark@.at_node_id,
                forall|v: Seq<char>| #[trigger] strs(visible_ids@).contains(v) <==> within(edges, at, VISIBILITY_RANGE as nat, v),
                nodes@.map_values(node_view()) == src@.take(i as int).filter(
                    node_visible_pred(edges, at),
                ).map_values(node_view()),
        {
            reveal(Seq::filter);
            assert(src@.take(i + 1).drop_last() =~= src@.take(i as int));
            let ghost f = src@.take(i as int).filter(node_visible_pred(edges, at));
            let ghost before = nodes@;
            if contains_str(&visible_ids, &src[i].id) {
                nodes.push(src[i].clone());
                proof {
                    assert(node_visible_pred(edges, at)(src@[i as int]));
                    assert(nodes@.map_values(node_view()) =~= before.map_values(node_view()).push(src@[i as int]@));
                    assert(f.push(src@[i as int]).map_values(node_view()) =~= f.map_values(node_view()).push(src@[i as int]@));
                }
            } else {
                proof {
                    assert(!node_visible_pred(edges, at)(src@[i as int]));
                }
            }
        }
        assert(src@.take(src@.len() as int) =~= src@);

        let mut vis_edges: Vec<BoardEdge> = Vec::new();
        let esrc = &self.snapshot.edges;
        for i in 0..esrc.len()
            invariant
                esrc == &self.snapshot.edges,
                edges == self.snapshot.edges@,
                at == spark@.at_node_id,
                forall|v: Seq<char>| #[trigger] strs(visible_ids@).contains(v) <==> within(edges, at, VISIBILITY_RANGE as nat, v),
                vis_edges@.map_values(edge_view()) == esrc@.take(i as int).filter(
                    edge_visible_pred(edges, at),
                ).map_values(edge_view()),
        {
            reveal(Seq::filter);
            assert(esrc@.take(i + 1).drop_last() =~= esrc@.take(i as int));
            let ghost f = esrc@.take(i as int).filter(edge_visible_pred(edges, at));
            let ghost before = vis_edges@;
            let shown = contains_str(&visible_ids, &esrc[i].from.node_id)
                || contains_str(&visible_ids, &esrc[i].to.node_id);
            if shown {
                vis_edges.push(esrc[i].clone());
                proof {
                    assert(edge_visible_pred(edges, at)(esrc@[i as int]));
                    assert(vis_edges@.map_values(edge_view()) =~= before.map_values(edge_view()).push(esrc@[i as int]@));
                    assert(f.push(esrc@[i as int]).map_values(edge_view()) =~= f.map_values(edge_view()).push(esrc@[i as int]@));
                }
            } else {
                proof {
                    assert(!edge_visible_pred(edges, at)(esrc@[i as int]));
                }
            }
        }
        assert(esrc@.take(esrc@.len() as int) =~= esrc@);

        let mut signals: Vec<SignalMsg> = Vec::new();
        let inbox = &self.inbox;
        for i in 0..inbox.len()
            invariant
                inbox == &self.inbox,
                signals@ == inbox@.take(i as int).filter(signal_pred(spark_id@)),
        {
            reveal(Seq::filter);
            assert(inbox@.take(i + 1).drop_last() =~= inbox@.take(i as int));
            let for_spark = match &inbox[i].to_spark_id {
                Some(to) => *to == *spark_id,
                None => true,
            };
            if for_spark {
                signals.push(inbox[i].clone());
            }
        }
        assert(inbox@.take(inbox@.len() as int) =~= inbox@);
        Ok((spark, VisibleSlice { nodes, edges: vis_edges }, signals))
    }
}


/// The views of the nodes with the given id, in board order.
pub open spec fn nodes_with_id_views(nodes: Seq<BoardNode>, id: Seq<char>) -> Seq<BoardNodeView> {
    nodes.filter(|n: BoardNode| n.id@ == id).map_values(node_view())
}

/// Copies of the nodes with the given id, in board order.
pub fn copies_with_id(nodes: &Vec<BoardNode>, id: &String) -> (r: Vec<BoardNode>)
    ensures
        r@.map_values(node_view()) == nodes_with_id_views(nodes@, id@),
{
    let mut r: Vec<BoardNode> = Vec::new();
    let ghost pred = |n: BoardNode| n.id@ == id@;
    for i in 0..nodes.len()
        invariant
            pred == (|n: BoardNode| n.id@ == id@),
            r@.map_values(node_view()) == nodes@.take(i as int).filter(pred).map_values(node_view()),
    {
        reveal(Seq::filter);
        assert(nodes@.take(i + 1).drop_last() =~= nodes@.take(i as int));
        let ghost f = nodes@.take(i as int).filter(pred);
        let ghost before = r@;
        if nodes[i].id == *id {
            r.push(nodes[i].clone());
            proof {
                assert(r@.map_values(node_view()) =~= before.map_values(node_view()).push(nodes@[i as int]@));
                assert(f.push(nodes@[i as int]).map_values(node_view()) =~= f.map_values(node_view()).push(nodes@[i as int]@));
            }
        }
    }
    assert(nodes@.take(nodes@.len() as int) =~= nodes@);
    r
}

/// Copies of all the sparks.
pub fn copy_sparks(sparks: &Vec<SparkState>) -> (r: Vec<SparkState>)
    ensures
        spark_views(r@) == spark_views(sparks@),
{
    let mut r: Vec<SparkState> = Vec::new();
    for i in 0..sparks.len()
        invariant
            spark_views(r@) == spark_views(sparks@.take(i as int)),
    {
        let ghost before = r@;
        r.push(sparks[i].clone());
        proof {
            assert(spark_views(r@) =~= spark_views(before).push(sparks@[i as int]@));
            assert(sparks@.take(i + 1) =~= sparks@.take(i as int).push(sparks@[i as int]));
            assert(spark_views(sparks@.take(i + 1)) =~= spark_views(sparks@.take(i as int)).push(sparks@[i as int]@));
        }
    }
    assert(sparks@.take(sparks@.len() as int) =~= sparks@);
    r
}

/// The change to send to the board view, with only the given parts present.
pub open spec fn diff_only(d: BoardDiff) -> bool {
    d.delete_node_ids is None && d.delete_edge_ids is None
}

/// The HP cost of a policy violation, for the first spark with the given id,
/// stays within `i32`.
pub open spec fn policy_violation_fits(st: RunState, spark_id: Seq<char>) -> bool {
    let damage = st.env.hp.damage.policy_violation_attempt;
    damage != i32::MIN && sparks_hp_fits(spark_views(st.snapshot.sparks@), spark_id, (0 - damage) as i32)
}

/// Everything of a run but its nodes and sparks is unchanged.
pub open spec fn keeps_record(before: RunState, after: RunState) -> bool {
    &&& after.env_spec_path == before.env_spec_path
    &&& after.workspace_path == before.workspace_path
    &&& after.env == before.env
    &&& after.snapshot.run_id == before.snapshot.run_id
    &&& after.snapshot.edges == before.snapshot.edges
    &&& after.last_edits == before.last_edits
    &&& after.failure_history == before.failure_history
    &&& after.patches == before.patches
    &&& after.inbox == before.inbox
    &&& after.seed == before.seed
}

/// `after` is `before` with the first spark with the id moved to the node.
pub open spec fn moved(before: RunState, after: RunState, spark_id: Seq<char>, to_node_id: Seq<char>) -> bool {
    &&& spark_views(after.snapshot.sparks@) == sparks_move(spark_views(before.snapshot.sparks@), spark_id, to_node_id)
    &&& after.snapshot.nodes == before.snapshot.nodes
    &&& keeps_record(before, after)
}

/// `after` is `before` with every node with the id satisfied.
pub open spec fn energized(before: RunState, after: RunState, object_id: Seq<char>) -> bool {
    &&& after.snapshot.nodes@ == nodes_satisfied(before.snapshot.nodes@, object_id)
    &&& after.snapshot.sparks == before.snapshot.sparks
    &&& keeps_record(before, after)
}

/// `after` is `before` with every node with the id open.
pub open spec fn relay_closed(before: RunState, after: RunState, relay_id: Seq<char>) -> bool {
    &&& after.snapshot.nodes@ == nodes_with_gate(before.snapshot.nodes@, relay_id, GateStatus::Open)
    &&& after.snapshot.sparks == before.snapshot.sparks
    &&& keeps_record(before, after)
}

/// `after` is `before` with the first spark with the id charged the
/// policy-violation damage (never below zero HP); `r` is the HP change, or
/// `None` when there is no such spark.
pub open spec fn violation_charged(before: RunState, after: RunState, spark_id: Seq<char>, r: Option<i32>) -> bool {
    let damage = before.env.hp.damage.policy_violation_attempt;
    &&& spark_views(after.snapshot.sparks@) == sparks_hp(spark_views(before.snapshot.sparks@), spark_id, (0 - damage) as i32)
    &&& r == match find_spark(spark_views(before.snapshot.sparks@), spark_id) {
        Some(_) => Some((0 - damage) as i32),
        None => None,
    }
    &&& after.snapshot.nodes == before.snapshot.nodes
    &&& keeps_record(before, after)
}

/// Which gate guards the relay: the one named by the first node with the id, when the
/// environment describes a gate of that name.
pub open spec fn relay_gate(st: RunState, relay_id: Seq<char>) -> Option<GateSpec> {
    match first_node_with_id(st.snapshot.nodes@, relay_id) {
        None => None,
        Some(i) => match st.snapshot.nodes@[i].gate_id {
            None => None,
            Some(g) => match first_gate_with_id(st.env.gates@, g@) {
                None => None,
                Some(k) => Some(st.env.gates@[k]),
            },
        },
    }
}

/// Why the spark may not close the relay: it is not a DC (see
/// [`role_refusal`]), or the predicate of the relay's gate does not hold
/// (`relay predicates not satisfied`). `None` when it may; a relay without a
/// gate spec has nothing to check.
pub open spec fn close_relay_refusal(st: RunState, spark_id: Seq<char>, relay_id: Seq<char>) -> Option<Seq<char>> {
    match role_refusal(spark_views(st.snapshot.sparks@), spark_id, SparkKind::Dc) {
        Some(m) => Some(m),
        None => match relay_gate(st, relay_id) {
            Some(g) => if predicate_holds(g.predicate, st.snapshot.nodes@, st.patches@, st.env.validators@) {
                None
            } else {
                Some("relay predicates not satisfied"@)
            },
            None => None,
        },
    }
}

impl RunState {
    /// Moves the first spark with the given id to the node; the change lists all sparks.
    pub fn apply_move(&mut self, spark_id: &String, to_node_id: &String) -> (diff: BoardDiff)
        ensures
            moved(*old(self), *final(self), spark_id@, to_node_id@),
            diff_only(diff),
            diff.upsert_nodes is None,
            diff.upsert_edges is None,
            diff.upsert_sparks matches Some(s) && spark_views(s@) == spark_views(final(self).snapshot.sparks@),
    {
        move_spark(&mut self.snapshot.sparks, spark_id, to_node_id);
        let sparks = copy_sparks(&self.snapshot.sparks);
        BoardDiff {
            upsert_nodes: None,
            delete_node_ids: None,
            upsert_edges: None,
            delete_edge_ids: None,
            upsert_sparks: Some(sparks),
        }
    }

    /// Marks every node with the given id satisfied; the change lists those nodes.
    pub fn apply_energize(&mut self, object_id: &String) -> (diff: BoardDiff)
        ensures
            energized(*old(self), *final(self), object_id@),
            diff_only(diff),
            diff.upsert_sparks is None,
            diff.upsert_edges is None,
            diff.upsert_nodes matches Some(n) && n@.map_values(node_view()) == nodes_with_id_views(
                final(self).snapshot.nodes@,
                object_id@,
            ),
    {
        mark_satisfied(&mut self.snapshot.nodes, object_id);
        let nodes = copies_with_id(&self.snapshot.nodes, object_id);
        BoardDiff {
            upsert_nodes: Some(nodes),
            delete_node_ids: None,
            upsert_edges: None,
            delete_edge_ids: None,
            upsert_sparks: None,
        }
    }

    /// Closes the relay: only a DC may, and only when the predicate of the
    /// relay's gate holds (a patch capsule was created, the listed validators
    /// passed, ...; see [`close_relay_refusal`]). Then every node with the id
    /// opens; the change lists those nodes and all sparks. A refusal changes
    /// nothing.
    pub fn close_relay(&mut self, spark_id: &String, relay_id: &String) -> (r: Result<BoardDiff, String>)
        ensures
            match close_relay_refusal(*old(self), spark_id@, relay_id@) {
                Some(m) => r matches Err(e) && e@ == m && *final(self) == *old(self),
                None => r matches Ok(diff) && {
                    &&& relay_closed(*old(self), *final(self), relay_id@)
                    &&& diff_only(diff)
                    &&& diff.upsert_edges is None
                    &&& diff.upsert_nodes matches Some(n) && n@.map_values(node_view()) == nodes_with_id_views(
                        final(self).snapshot.nodes@,
                        relay_id@,
                    )
                    &&& diff.upsert_sparks matches Some(s) && spark_views(s@) == spark_views(final(self).snapshot.sparks@)
                },
            },
    {
        match self.check_close_relay(spark_id, relay_id) {
            Err(m) => {
                return Err(m);
            },
            Ok(()) => {},
        }
        mark_gate(&mut self.snapshot.nodes, relay_id, GateStatus::Open);
        let nodes = copies_with_id(&self.snapshot.nodes, relay_id);
        let sparks = copy_sparks(&self.snapshot.sparks);
        Ok(BoardDiff {
            upsert_nodes: Some(nodes),
            delete_node_ids: None,
            upsert_edges: None,
            delete_edge_ids: None,
            upsert_sparks: Some(sparks),
        })
    }

    /// Whether the spark may close the relay now (see [`close_relay_refusal`]).
    pub fn check_close_relay(&self, spark_id: &String, relay_id: &String) -> (r: Result<(), String>)
        ensures
            match close_relay_refusal(*self, spark_id@, relay_id@) {
                Some(m) => r matches Err(e) && e@ == m,
                None => r is Ok,
            },
    {
        match self.role_refusal_message(spark_id, SparkKind::Dc) {
            Some(m) => {
                return Err(m);
            },
            None => {},
        }
        let ready = match find_node_index(&self.snapshot.nodes, relay_id) {
            None => true,
            Some(i) => match &self.snapshot.nodes[i].gate_id {
                None => true,
                Some(g) => match find_gate_index(&self.env.gates, g) {
                    None => true,
                    Some(k) => predicate_holds_in(&self.env.gates[k].predicate, &self.snapshot.nodes, None, &self.patches, &self.env.validators),
                },
            },
        };
        if ready {
            Ok(())
        } else {
            Err(owned("relay predicates not satisfied"))
        }
    }

    /// Whether a policy violation by the spark keeps HP within `i32`.
    pub fn policy_violation_fits(&self, spark_id: &String) -> (r: bool)
        ensures
            r == policy_violation_fits(*self, spark_id@),
    {
        let damage = self.env.hp.damage.policy_violation_attempt;
        if damage == i32::MIN {
            return false;
        }
        match find_spark_index(&self.snapshot.sparks, spark_id) {
            Some(i) => {
                let sum = self.snapshot.sparks[i].hp as i64 - damage as i64;
                i32::MIN as i64 <= sum && sum <= i32::MAX as i64
            },
            None => true,
        }
    }

    /// Charges the first spark with the given id the policy-violation damage
    /// (never below zero HP) and returns the HP change, or `None` when the run
    /// has no such spark.
    pub fn apply_policy_violation(&mut self, spark_id: &String) -> (r: Option<i32>)
        requires
            policy_violation_fits(*old(self), spark_id@),
        ensures
            violation_charged(*old(self), *final(self), spark_id@, r),
    {
        let damage = self.env.hp.damage.policy_violation_attempt;
        let found = find_spark_index(&self.snapshot.sparks, spark_id).is_some();
        change_hp(&mut self.snapshot.sparks, spark_id, -damage);
        if found {
            Some(-damage)
        } else {
            None
        }
    }
}


// ---------------------------------------------------------------------------
// Probe runs
// ---------------------------------------------------------------------------

/// What a run of a probe's validator decided.
pub struct ProbeVerdict {
    /// `pass` or `fail`.
    pub status: String,
    /// `<validator id>_exit_<exit code>` for a failed run.
    pub failure_signature: Option<String>,
    /// The HP change that the failure costs (0 for a pass).
    pub hp_delta: i32,
    /// `(gate id, gate kind)` of each gate that the pass opens, in spec order.
    pub opened_gates: Vec<(String, String)>,
}

/// The position of the first node with the given id.
pub open spec fn first_node_with_id(nodes: Seq<BoardNode>, id: Seq<char>) -> Option<int> {
    if exists|i: int| 0 <= i < nodes.len() && #[trigger] nodes[i].id@ == id {
        Some(choose|i: int| 0 <= i < nodes.len() && #[trigger] nodes[i].id@ == id && forall|j: int|
            0 <= j < i ==> nodes[j].id@ != id)
    } else {
        None
    }
}

/// The position of the first validator with the given id.
pub open spec fn first_validator_with_id(vs: Seq<ValidatorSpec>, id: Seq<char>) -> Option<int> {
    if exists|i: int| 0 <= i < vs.len() && #[trigger] vs[i].id@ == id {
        Some(choose|i: int| 0 <= i < vs.len() && #[trigger] vs[i].id@ == id && forall|j: int|
            0 <= j < i ==> vs[j].id@ != id)
    } else {
        None
    }
}

/// The commands a validator runs: its single command, or the command of each step.
pub open spec fn validator_commands(v: ValidatorSpec) -> Option<Seq<Seq<Seq<char>>>> {
    match v.cmd {
        Some(c) => Some(seq![strs(c@)]),
        None => match v.steps {
            Some(steps) => Some(steps@.map_values(|st: crate::schemas::environment::ValidatorStep| strs(st.cmd@))),
            None => None,
        },
    }
}

fn find_node_index(nodes: &Vec<BoardNode>, id: &String) -> (r: Option<usize>)
    ensures
        match r {
            Some(i) => first_node_with_id(nodes@, id@) == Some(i as int) && i < nodes@.len(),
            None => first_node_with_id(nodes@, id@) is None,
        },
{
    for i in 0..nodes.len()
        invariant
            forall|j: int| 0 <= j < i ==> nodes@[j].id@ != id@,
    {
        if nodes[i].id == *id {
            proof {
                let k = choose|k: int| 0 <= k < nodes@.len() && #[trigger] nodes@[k].id@ == id@ && forall|j: int|
                    0 <= j < k ==> nodes@[j].id@ != id@;
                assert(k == i) by {
                    if k < i {
                        assert(nodes@[k].id@ != id@);
                    } else if k > i {
                        assert(nodes@[i as int].id@ != id@);
                    }
                }
            }
            return Some(i);
        }
    }
    None
}

fn find_validator_index(vs: &Vec<ValidatorSpec>, id: &String) -> (r: Option<usize>)
    ensures
        match r {
            Some(i) => first_validator_with_id(vs@, id@) == Some(i as int) && i < vs@.len(),
            None => first_validator_with_id(vs@, id@) is None,
        },
{
    for i in 0..vs.len()
        invariant
            forall|j: int| 0 <= j < i ==> vs@[j].id@ != id@,
    {
        if vs[i].id == *id {
            proof {
                let k = choose|k: int| 0 <= k < vs@.len() && #[trigger] vs@[k].id@ == id@ && forall|j: int|
                    0 <= j < k ==> vs@[j].id@ != id@;
                assert(k == i) by {
                    if k < i {
                        assert(vs@[k].id@ != id@);
                    } else if k > i {
                        assert(vs@[i as int].id@ != id@);
                    }
                }
            }
            return Some(i);
        }
    }
    None
}

/// Copies of a list of strings.
pub fn copy_strings(v: &Vec<String>) -> (r: Vec<String>)
    ensures
        r@ == v@,
{
    crate::schemas::environment::clone_exact_vec(v)
}

/// The views of a list of commands.
pub open spec fn command_views(cmds: Seq<Vec<String>>) -> Seq<Seq<Seq<char>>> {
    cmds.map_values(|c: Vec<String>| strs(c@))
}

/// What running a probe needs: the running spark must be a DC (only a DC runs
/// probes); then the commands of the validator of the probe node (the first
/// node with that id), the validator's id and kind, and the workspace. Fails
/// with the role refusal or the message of the first thing missing.
pub open spec fn probe_plan_spec(st: RunState, spark_id: Seq<char>, probe_id: Seq<char>) -> Result<(Seq<Seq<Seq<char>>>, Seq<char>, Seq<char>, Seq<char>), Seq<char>> {
    match role_refusal(spark_views(st.snapshot.sparks@), spark_id, SparkKind::Dc) {
        Some(m) => Err(m),
        None => probe_target_plan(st, probe_id),
    }
}

/// What running the probe needs, once the running spark is known to be a DC.
pub open spec fn probe_target_plan(st: RunState, probe_id: Seq<char>) -> Result<(Seq<Seq<Seq<char>>>, Seq<char>, Seq<char>, Seq<char>), Seq<char>> {
    match first_node_with_id(st.snapshot.nodes@, probe_id) {
        None => Err("probe node not found"@),
        Some(i) => match st.snapshot.nodes@[i].validator_id {
            None => Err("probe missing validator_id"@),
            Some(vid) => match first_validator_with_id(st.env.validators@, vid@) {
                None => Err("validator not found"@),
                Some(k) => {
                    let v = st.env.validators@[k];
                    match validator_commands(v) {
                        None => Err("validator has no cmd/steps"@),
                        Some(cmds) => Ok((cmds, vid@, v.kind@, st.workspace_path@)),
                    }
                },
            },
        },
    }
}

/// The damage that a failed run of a validator of this kind costs.
pub open spec fn base_damage(hp: HpSpec, kind: Seq<char>) -> i32 {
    if kind == "unit"@ || kind == "test"@ {
        hp.damage.unit_fail
    } else if kind == "integration"@ {
        hp.damage.integration_fail
    } else if kind == "quality"@ || kind == "lint"@ || kind == "typecheck"@ || kind == "coverage"@ {
        hp.damage.quality_fail
    } else {
        hp.damage.unit_fail
    }
}

/// How often the signature occurs in the history.
pub open spec fn occurrences(history: Seq<Seq<char>>, sig: Seq<char>) -> nat {
    history.filter(|s: Seq<char>| s == sig).len()
}

/// The extra damage for repeating a failure signature often enough.
pub open spec fn anti_thrash_damage(hp: HpSpec, history: Seq<Seq<char>>, sig: Seq<char>) -> i32 {
    match hp.anti_thrash {
        Some(at) => if (occurrences(history, sig) as usize) as u32 >= at.repeat_failure_signature_after {
            at.extra_damage
        } else {
            0
        },
        None => 0,
    }
}

/// The failure signature of a validator's failed run.
pub open spec fn failure_signature_of(validator_id: Seq<char>, last_exit: i32) -> Seq<char> {
    validator_id + "_exit_"@ + decimal(last_exit as int)
}

/// The node's probe reports a pass.
pub open spec fn node_passed(n: BoardNode) -> bool {
    n.status matches Some(s) && s.probe == Some(ProbeStatus::Pass)
}

/// Some node with the id reports a pass.
pub open spec fn probe_passed(nodes: Seq<BoardNode>, pid: Seq<char>) -> bool {
    exists|i: int| 0 <= i < nodes.len() && (#[trigger] nodes[i]).id@ == pid && node_passed(nodes[i])
}

/// Some node run by the validator reports a pass.
pub open spec fn validator_passed(nodes: Seq<BoardNode>, vid: Seq<char>) -> bool {
    exists|i: int| 0 <= i < nodes.len() && opt_str((#[trigger] nodes[i]).validator_id) == Some(vid) && node_passed(nodes[i])
}

/// Whether a gate predicate holds of a run whose nodes and created patch
/// capsules are these: `probePass` when the probe passed, `all` when every
/// sub-predicate holds, `patchCapsulePresent` once a patch capsule was
/// created, `evidenceSetPresent` when every listed validator passed. The
/// lint, typecheck, coverage and checklist predicates hold once a validator of
/// a matching kind passed (see [`evidence_kinds`]; the coverage percentage and
/// the checklist rubric are not recorded, so they are not checked).
pub open spec fn predicate_holds(p: Predicate, nodes: Seq<BoardNode>, patches: Seq<String>, vs: Seq<ValidatorSpec>) -> bool
    decreases p,
{
    match p {
        Predicate::ProbePass { probe_id } => probe_passed(nodes, probe_id@),
        Predicate::All { of } => {
            proof {
                assert(decreases_to!(p => of));
                assert(decreases_to!(of => of@));
            }
            all_hold(of@, nodes, patches, vs)
        },
        Predicate::PatchCapsulePresent => patches.len() > 0,
        Predicate::EvidenceSetPresent { validators } => forall|j: int|
            0 <= j < validators@.len() ==> validator_passed(nodes, #[trigger] validators@[j]@),
        _ => kind_passed(nodes, vs, evidence_kinds(p)),
    }
}

/// Every predicate of the list holds.
pub open spec fn all_hold(ps: Seq<Predicate>, nodes: Seq<BoardNode>, patches: Seq<String>, vs: Seq<ValidatorSpec>) -> bool
    decreases ps,
{
    if ps.len() == 0 {
        true
    } else {
        all_hold(ps.subrange(0, ps.len() - 1), nodes, patches, vs) && predicate_holds(ps[ps.len() - 1], nodes, patches, vs)
    }
}

/// The validator kinds whose passing run is the evidence of a lint,
/// typecheck, coverage or checklist predicate: `lint`, `typecheck` or
/// `coverage` respectively, or the composite `quality` validator that runs all
/// three; `checklist` for a checklist. Other predicates have none.
pub open spec fn evidence_kinds(p: Predicate) -> Seq<Seq<char>> {
    match p {
        Predicate::LintPass => seq!["lint"@, "quality"@],
        Predicate::TypecheckPass => seq!["typecheck"@, "quality"@],
        Predicate::CoverageAtLeast { .. } => seq!["coverage"@, "quality"@],
        Predicate::ChecklistPresent { .. } => seq!["checklist"@],
        _ => Seq::empty(),
    }
}

/// Some node run by a validator of one of the kinds reports a pass.
pub open spec fn kind_passed(nodes: Seq<BoardNode>, vs: Seq<ValidatorSpec>, kinds: Seq<Seq<char>>) -> bool {
    exists|i: int, k: int|
        0 <= i < nodes.len() && 0 <= k < vs.len() && node_passed(#[trigger] nodes[i]) && opt_str(nodes[i].validator_id)
            == Some(#[trigger] vs[k].id@) && kinds.contains(vs[k].kind@)
}

/// The validator kinds that evidence the predicate (see [`evidence_kinds`]).
pub fn evidence_kinds_of(p: &Predicate) -> (r: Vec<String>)
    ensures
        strs(r@) == evidence_kinds(*p),
{
    let r = match p {
        Predicate::LintPass => vec![owned("lint"), owned("quality")],
        Predicate::TypecheckPass => vec![owned("typecheck"), owned("quality")],
        Predicate::CoverageAtLeast { .. } => vec![owned("coverage"), owned("quality")],
        Predicate::ChecklistPresent { .. } => vec![owned("checklist")],
        _ => Vec::new(),
    };
    assert(strs(r@) =~= evidence_kinds(*p));
    r
}

/// Whether some node of a validator of one of the kinds passed (counting `just` as passed).
fn kind_passed_in(nodes: &Vec<BoardNode>, just: Option<&String>, vs: &Vec<ValidatorSpec>, kinds: &Vec<String>) -> (r: bool)
    ensures
        r == kind_passed(nodes_seen(nodes@, just), vs@, strs(kinds@)),
{
    let ghost seen = nodes_seen(nodes@, just);
    for i in 0..nodes.len()
        invariant
            seen == nodes_seen(nodes@, just),
            seen.len() == nodes@.len(),
            forall|a: int, k: int|
                0 <= a < i && 0 <= k < vs@.len() ==> !(node_passed(#[trigger] seen[a]) && opt_str(seen[a].validator_id)
                    == Some(#[trigger] vs@[k].id@) && strs(kinds@).contains(vs@[k].kind@)),
    {
        let is_just = match just {
            Some(q) => nodes[i].id == *q,
            None => false,
        };
        let passed = is_just || match &nodes[i].status {
            Some(st) => match st.probe {
                Some(ProbeStatus::Pass) => true,
                _ => false,
            },
            None => false,
        };
        assert(passed == node_passed(seen[i as int]));
        assert(seen[i as int].validator_id == nodes@[i as int].validator_id);
        if passed {
            match &nodes[i].validator_id {
                Some(v) => {
                    for k in 0..vs.len()
                        invariant
                            seen == nodes_seen(nodes@, just),
                            seen.len() == nodes@.len(),
                            i < nodes@.len(),
                            node_passed(seen[i as int]),
                            opt_str(seen[i as int].validator_id) == Some(v@),
                            forall|m: int| 0 <= m < k ==> !(v@ == (#[trigger] vs@[m]).id@ && strs(kinds@).contains(vs@[m].kind@)),
                    {
                        if str_eq(vs[k].id.as_str(), v.as_str()) && contains_str(kinds, &vs[k].kind) {
                            assert(node_passed(seen[i as int]) && opt_str(seen[i as int].validator_id) == Some(vs@[k as int].id@)
                                && strs(kinds@).contains(vs@[k as int].kind@));
                            assert(kind_passed(seen, vs@, strs(kinds@)));
                            return true;
                        }
                    }
                },
                None => {},
            }
        }
    }
    false
}

/// The predicate names the probe, its validator, or its validator's kind, as evidence.
pub open spec fn predicate_mentions(p: Predicate, probe_id: Seq<char>, vid: Seq<char>, vkind: Seq<char>) -> bool
    decreases p,
{
    match p {
        Predicate::ProbePass { probe_id: q } => q@ == probe_id,
        Predicate::All { of } => {
            proof {
                assert(decreases_to!(p => of));
                assert(decreases_to!(of => of@));
            }
            any_mentions(of@, probe_id, vid, vkind)
        },
        Predicate::EvidenceSetPresent { validators } => exists|j: int|
            0 <= j < validators@.len() && #[trigger] validators@[j]@ == vid,
        _ => evidence_kinds(p).contains(vkind),
    }
}

/// Some predicate of the list names the probe or its validator.
pub open spec fn any_mentions(ps: Seq<Predicate>, probe_id: Seq<char>, vid: Seq<char>, vkind: Seq<char>) -> bool
    decreases ps,
{
    if ps.len() == 0 {
        false
    } else {
        any_mentions(ps.subrange(0, ps.len() - 1), probe_id, vid, vkind) || predicate_mentions(ps[ps.len() - 1], probe_id, vid, vkind)
    }
}

/// The nodes once the probe has passed: every node with its id reports a pass.
pub open spec fn nodes_after_pass(nodes: Seq<BoardNode>, probe_id: Seq<char>) -> Seq<BoardNode> {
    nodes_with_probe(nodes, probe_id, ProbeStatus::Pass)
}

/// A pass of the probe (run by validator `vid` of kind `vkind`) opens `g`: its
/// predicate names the probe, its validator or its kind, and holds once the
/// probe has passed.
pub open spec fn opened_by(g: GateSpec, nodes: Seq<BoardNode>, patches: Seq<String>, vs: Seq<ValidatorSpec>, probe_id: Seq<char>, vid: Seq<char>, vkind: Seq<char>) -> bool {
    predicate_mentions(g.predicate, probe_id, vid, vkind) && predicate_holds(
        g.predicate,
        nodes_after_pass(nodes, probe_id),
        patches,
        vs,
    )
}

/// Ids and kinds of the gates that a pass of the probe opens, in spec order.
pub open spec fn gates_opened_by(st: RunState, probe_id: Seq<char>, vid: Seq<char>, vkind: Seq<char>) -> Seq<(Seq<char>, Seq<char>)> {
    st.env.gates@.filter(|g: GateSpec| opened_by(g, st.snapshot.nodes@, st.patches@, st.env.validators@, probe_id, vid, vkind)).map_values(
        |g: GateSpec| (g.id@, g.kind@),
    )
}

/// The nodes as they stand, or once the probe `just` has passed.
pub open spec fn nodes_seen(nodes: Seq<BoardNode>, just: Option<&String>) -> Seq<BoardNode> {
    match just {
        Some(q) => nodes_after_pass(nodes, q@),
        None => nodes,
    }
}

/// Whether the probe passed (or is `just`, which has just passed).
fn probe_passed_in(nodes: &Vec<BoardNode>, just: Option<&String>, pid: &String) -> (r: bool)
    ensures
        r == probe_passed(nodes_seen(nodes@, just), pid@),
{
    let ghost seen = nodes_seen(nodes@, just);
    for i in 0..nodes.len()
        invariant
            seen == nodes_seen(nodes@, just),
            seen.len() == nodes@.len(),
            forall|j: int| 0 <= j < i ==> !((#[trigger] seen[j]).id@ == pid@ && node_passed(seen[j])),
    {
        let is_just = match just {
            Some(q) => nodes[i].id == *q,
            None => false,
        };
        let passed = is_just || match &nodes[i].status {
            Some(st) => match st.probe {
                Some(ProbeStatus::Pass) => true,
                _ => false,
            },
            None => false,
        };
        if nodes[i].id == *pid && passed {
            assert(seen[i as int].id@ == pid@ && node_passed(seen[i as int]));
            return true;
        }
        assert(!(seen[i as int].id@ == pid@ && node_passed(seen[i as int])));
    }
    false
}

/// Whether some node of the validator passed (counting `just` as passed).
fn validator_passed_in(nodes: &Vec<BoardNode>, just: Option<&String>, vid: &String) -> (r: bool)
    ensures
        r == validator_passed(nodes_seen(nodes@, just), vid@),
{
    let ghost seen = nodes_seen(nodes@, just);
    for i in 0..nodes.len()
        invariant
            seen == nodes_seen(nodes@, just),
            seen.len() == nodes@.len(),
            forall|j: int| 0 <= j < i ==> !(opt_str((#[trigger] seen[j]).validator_id) == Some(vid@) && node_passed(seen[j])),
    {
        let is_just = match just {
            Some(q) => nodes[i].id == *q,
            None => false,
        };
        let passed = is_just || match &nodes[i].status {
            Some(st) => match st.probe {
                Some(ProbeStatus::Pass) => true,
                _ => false,
            },
            None => false,
        };
        let runs = match &nodes[i].validator_id {
            Some(v) => *v == *vid,
            None => false,
        };
        if runs && passed {
            assert(opt_str(seen[i as int].validator_id) == Some(vid@) && node_passed(seen[i as int]));
            return true;
        }
        assert(!(opt_str(seen[i as int].validator_id) == Some(vid@) && node_passed(seen[i as int])));
    }
    false
}

/// Whether the predicate holds (see [`predicate_holds`]), with `just` counted as passed.
pub fn predicate_holds_in(p: &Predicate, nodes: &Vec<BoardNode>, just: Option<&String>, patches: &Vec<String>, vs: &Vec<ValidatorSpec>) -> (r: bool)
    ensures
        r == predicate_holds(*p, nodes_seen(nodes@, just), patches@, vs@),
    decreases p,
{
    match p {
        Predicate::ProbePass { probe_id } => {
            let r = probe_passed_in(nodes, just, probe_id);
            assert(predicate_holds(*p, nodes_seen(nodes@, just), patches@, vs@) == probe_passed(nodes_seen(nodes@, just), probe_id@));
            r
        },
        Predicate::All { of } => {
            let ghost seen = nodes_seen(nodes@, just);
            for i in 0..of.len()
                invariant
                    *p == (Predicate::All { of: *of }),
                    seen == nodes_seen(nodes@, just),
                    all_hold(of@.take(i as int), seen, patches@, vs@),
            {
                proof {
                    let ghost pp = *p;
                    assert(pp->of == *of);
                    assert(decreases_to!(pp => pp->of));
                    assert(decreases_to!(pp->of => pp->of@));
                    assert(decreases_to!(pp->of@ => pp->of@[i as int]));
                }
                let sub = predicate_holds_in(&of[i], nodes, just, patches, vs);
                proof {
                    let t = of@.take(i + 1);
                    assert(t.subrange(0, t.len() - 1) =~= of@.take(i as int));
                    assert(t[t.len() - 1] == of@[i as int]);
                }
                if !sub {
                    proof {
                        lemma_all_hold_prefix(of@, i + 1, seen, patches@, vs@);
                    }
                    return false;
                }
            }
            assert(of@.take(of@.len() as int) =~= of@);
            true
        },
        Predicate::PatchCapsulePresent => patches.len() > 0,
        Predicate::EvidenceSetPresent { validators } => validators_passed_in(validators, nodes, just),
        _ => {
            let kinds = evidence_kinds_of(p);
            kind_passed_in(nodes, just, vs, &kinds)
        },
    }
}

/// Whether every listed validator passed (counting `just` as passed).
fn validators_passed_in(validators: &Vec<String>, nodes: &Vec<BoardNode>, just: Option<&String>) -> (r: bool)
    ensures
        r == forall|j: int| 0 <= j < validators@.len() ==> validator_passed(nodes_seen(nodes@, just), #[trigger] validators@[j]@),
{
    for j in 0..validators.len()
        invariant
            forall|k: int| 0 <= k < j ==> validator_passed(nodes_seen(nodes@, just), #[trigger] validators@[k]@),
    {
        if !validator_passed_in(nodes, just, &validators[j]) {
            assert(!validator_passed(nodes_seen(nodes@, just), validators@[j as int]@));
            return false;
        }
    }
    true
}

/// A list whose prefix fails to hold fails to hold.
proof fn lemma_all_hold_prefix(ps: Seq<Predicate>, k: int, nodes: Seq<BoardNode>, patches: Seq<String>, vs: Seq<ValidatorSpec>)
    requires
        0 <= k <= ps.len(),
        !all_hold(ps.take(k), nodes, patches, vs),
    ensures
        !all_hold(ps, nodes, patches, vs),
    decreases ps.len() - k,
{
    if k < ps.len() {
        let t = ps.take(k + 1);
        assert(t.subrange(0, t.len() - 1) =~= ps.take(k));
        lemma_all_hold_prefix(ps, k + 1, nodes, patches, vs);
    } else {
        assert(ps.take(k) =~= ps);
    }
}

/// A list with a prefix that names the probe names it.
proof fn lemma_any_mentions_prefix(ps: Seq<Predicate>, k: int, probe_id: Seq<char>, vid: Seq<char>, vkind: Seq<char>)
    requires
        0 <= k <= ps.len(),
        any_mentions(ps.take(k), probe_id, vid, vkind),
    ensures
        any_mentions(ps, probe_id, vid, vkind),
    decreases ps.len() - k,
{
    if k < ps.len() {
        let t = ps.take(k + 1);
        assert(t.subrange(0, t.len() - 1) =~= ps.take(k));
        lemma_any_mentions_prefix(ps, k + 1, probe_id, vid, vkind);
    } else {
        assert(ps.take(k) =~= ps);
    }
}

/// Whether the predicate names the probe, its validator or its kind (see [`predicate_mentions`]).
pub fn predicate_mentions_in(p: &Predicate, probe_id: &String, vid: &String, vkind: &String) -> (r: bool)
    ensures
        r == predicate_mentions(*p, probe_id@, vid@, vkind@),
    decreases p,
{
    match p {
        Predicate::ProbePass { probe_id: q } => str_eq(q.as_str(), probe_id.as_str()),
        Predicate::All { of } => {
            for i in 0..of.len()
                invariant
                    *p == (Predicate::All { of: *of }),
                    !any_mentions(of@.take(i as int), probe_id@, vid@, vkind@),
            {
                proof {
                    let ghost pp = *p;
                    assert(pp->of == *of);
                    assert(decreases_to!(pp => pp->of));
                    assert(decreases_to!(pp->of => pp->of@));
                    assert(decreases_to!(pp->of@ => pp->of@[i as int]));
                }
                let sub = predicate_mentions_in(&of[i], probe_id, vid, vkind);
                proof {
                    let t = of@.take(i + 1);
                    assert(t.subrange(0, t.len() - 1) =~= of@.take(i as int));
                    assert(t[t.len() - 1] == of@[i as int]);
                }
                if sub {
                    proof {
                        lemma_any_mentions_prefix(of@, i + 1, probe_id@, vid@, vkind@);
                    }
                    return true;
                }
            }
            assert(of@.take(of@.len() as int) =~= of@);
            false
        },
        Predicate::EvidenceSetPresent { validators } => {
            let r = contains_str(validators, vid);
            proof {
                if r {
                    let k = choose|k: int| 0 <= k < strs(validators@).len() && strs(validators@)[k] == vid@;
                    assert(validators@[k]@ == vid@);
                }
                if exists|j: int| 0 <= j < validators@.len() && #[trigger] validators@[j]@ == vid@ {
                    let j = choose|j: int| 0 <= j < validators@.len() && #[trigger] validators@[j]@ == vid@;
                    assert(strs(validators@)[j] == vid@);
                }
            }
            r
        },
        _ => {
            let kinds = evidence_kinds_of(p);
            contains_str(&kinds, vkind)
        },
    }
}

/// The HP arithmetic of a failed run stays within `i32`.
pub open spec fn verdict_fits(st: RunState, validator_id: Seq<char>, validator_kind: Seq<char>, last_exit: i32) -> bool {
    let sig = failure_signature_of(validator_id, last_exit);
    let total = base_damage(st.env.hp, validator_kind) + anti_thrash_damage(st.env.hp, strs(st.failure_history@), sig);
    i32::MIN < total <= i32::MAX
}

pub open spec fn gate_pair_views(v: Seq<(String, String)>) -> Seq<(Seq<char>, Seq<char>)> {
    v.map_values(|p: (String, String)| (p.0@, p.1@))
}

impl RunState {
    /// The commands, validator id, validator kind and workspace for the spark
    /// to run the probe; only a DC may (see [`probe_plan_spec`]).
    pub fn probe_plan(&self, spark_id: &String, probe_id: &String) -> (r: Result<(Vec<Vec<String>>, String, String, String), String>)
        ensures
            match r {
                Ok((cmds, vid, kind, ws)) => probe_plan_spec(*self, spark_id@, probe_id@) == Ok::<_, Seq<char>>((command_views(cmds@), vid@, kind@, ws@)),
                Err(m) => probe_plan_spec(*self, spark_id@, probe_id@) == Err::<(Seq<Seq<Seq<char>>>, Seq<char>, Seq<char>, Seq<char>), _>(m@),
            },
    {
        match self.role_refusal_message(spark_id, SparkKind::Dc) {
            Some(m) => {
                return Err(m);
            },
            None => {},
        }
        let i = match find_node_index(&self.snapshot.nodes, probe_id) {
            Some(i) => i,
            None => {
                return Err(owned("probe node not found"));
            },
        };
        let vid = match &self.snapshot.nodes[i].validator_id {
            Some(v) => v.clone(),
            None => {
                return Err(owned("probe missing validator_id"));
            },
        };
        let k = match find_validator_index(&self.env.validators, &vid) {
            Some(k) => k,
            None => {
                return Err(owned("validator not found"));
            },
        };
        let v = &self.env.validators[k];
        let cmds: Vec<Vec<String>> = match &v.cmd {
            Some(c) => {
                let mut cmds: Vec<Vec<String>> = Vec::new();
                cmds.push(copy_strings(c));
                assert(command_views(cmds@) =~= seq![strs(c@)]);
                cmds
            },
            None => match &v.steps {
                Some(steps) => {
                    let mut cmds: Vec<Vec<String>> = Vec::new();
                    for j in 0..steps.len()
                        invariant
                            command_views(cmds@) == steps@.take(j as int).map_values(
                                |st: crate::schemas::environment::ValidatorStep| strs(st.cmd@),
                            ),
                    {
                        let ghost before = cmds@;
                        cmds.push(copy_strings(&steps[j].cmd));
                        assert(command_views(cmds@) =~= command_views(before).push(strs(steps@[j as int].cmd@)));
                        assert(steps@.take(j + 1) =~= steps@.take(j as int).push(steps@[j as int]));
                    }
                    assert(steps@.take(steps@.len() as int) =~= steps@);
                    cmds
                },
                None => {
                    return Err(owned("validator has no cmd/steps"));
                },
            },
        };
        Ok((cmds, vid, v.kind.clone(), self.workspace_path.clone()))
    }
}


/// How often the signature occurs in the history.
fn count_occurrences(history: &Vec<String>, sig: &String) -> (r: usize)
    ensures
        r as nat == occurrences(strs(history@), sig@),
{
    let mut r: usize = 0;
    let ghost pred = |s: Seq<char>| s == sig@;
    for i in 0..history.len()
        invariant
            pred == (|s: Seq<char>| s == sig@),
            r as nat == strs(history@).take(i as int).filter(pred).len(),
            r <= i,
    {
        reveal(Seq::filter);
        assert(strs(history@).take(i + 1).drop_last() =~= strs(history@).take(i as int));
        if history[i] == *sig {
            r = r + 1;
        }
    }
    assert(strs(history@).take(history@.len() as int) =~= strs(history@));
    r
}

/// The failure signature of a validator's failed run (see [`failure_signature_of`]).
pub fn failure_signature(validator_id: &String, last_exit: i32) -> (r: String)
    ensures
        r@ == failure_signature_of(validator_id@, last_exit),
{
    let mut sig = validator_id.clone();
    sig.append("_exit_");
    let code = i32_to_decimal(last_exit);
    sig.append(code.as_str());
    sig
}

/// The damage that a failed run of a validator of this kind costs (see [`base_damage`]).
pub fn base_damage_of(hp: &HpSpec, kind: &str) -> (r: i32)
    ensures
        r == base_damage(*hp, kind@),
{
    if str_eq(kind, "unit") || str_eq(kind, "test") {
        hp.damage.unit_fail
    } else if str_eq(kind, "integration") {
        hp.damage.integration_fail
    } else if str_eq(kind, "quality") || str_eq(kind, "lint") || str_eq(kind, "typecheck") || str_eq(kind, "coverage") {
        hp.damage.quality_fail
    } else {
        hp.damage.unit_fail
    }
}

impl RunState {
    /// The anti-thrash extra damage for a failure with this signature (see
    /// [`anti_thrash_damage`]).
    pub fn anti_thrash_of(&self, sig: &String) -> (r: i32)
        ensures
            r == anti_thrash_damage(self.env.hp, strs(self.failure_history@), sig@),
    {
        match &self.env.hp.anti_thrash {
            Some(at) => {
                let repeat_count = count_occurrences(&self.failure_history, sig) as u32;
                if repeat_count >= at.repeat_failure_signature_after {
                    at.extra_damage
                } else {
                    0
                }
            },
            None => 0,
        }
    }

    /// Whether the HP arithmetic of a failed run stays within `i32` (see
    /// [`verdict_fits`]).
    pub fn verdict_fits(&self, validator_id: &String, validator_kind: &String, last_exit: i32) -> (r: bool)
        ensures
            r == verdict_fits(*self, validator_id@, validator_kind@, last_exit),
    {
        let sig = failure_signature(validator_id, last_exit);
        let total = base_damage_of(&self.env.hp, validator_kind.as_str()) as i64 + self.anti_thrash_of(&sig) as i64;
        (i32::MIN as i64) < total && total <= (i32::MAX as i64)
    }
}

/// A verdict carries a failure signature only when its status is `fail`.
pub open spec fn signature_only_on_failure(v: ProbeVerdict) -> bool {
    v.failure_signature is Some ==> v.status@ == "fail"@
}

impl RunState {
    /// The verdict on a validator run: `pass` when every command exited 0;
    /// otherwise `fail`, a failure signature from the validator id and the
    /// last exit code, and an HP loss of the damage for the validator's kind
    /// plus the anti-thrash extra once the signature has been seen often
    /// enough. A pass opens every gate whose predicate names the probe (or its
    /// validator) and holds once the probe has passed.
    pub fn probe_verdict(
        &self,
        validator_id: &String,
        validator_kind: &String,
        probe_id: &String,
        all_ok: bool,
        last_exit: i32,
    ) -> (v: ProbeVerdict)
        requires
            !all_ok ==> verdict_fits(*self, validator_id@, validator_kind@, last_exit),
        ensures
            signature_only_on_failure(v),
            v.status@ == (if all_ok { "pass"@ } else { "fail"@ }),
            opt_str(v.failure_signature) == (if all_ok {
                None
            } else {
                Some(failure_signature_of(validator_id@, last_exit))
            }),
            v.hp_delta == (if all_ok {
                0
            } else {
                (0 - (base_damage(self.env.hp, validator_kind@) + anti_thrash_damage(
                    self.env.hp,
                    strs(self.failure_history@),
                    failure_signature_of(validator_id@, last_exit),
                ))) as i32
            }),
            gate_pair_views(v.opened_gates@) == (if all_ok {
                gates_opened_by(*self, probe_id@, validator_id@, validator_kind@)
            } else {
                Seq::empty()
            }),
    {
        let status = if all_ok { owned("pass") } else { owned("fail") };
        let mut hp_delta: i32 = 0;
        let failure_signature = if all_ok {
            None
        } else {
            Some(failure_signature(validator_id, last_exit))
        };
        match &failure_signature {
            Some(sig) => {
                let base = base_damage_of(&self.env.hp, validator_kind.as_str());
                let extra = self.anti_thrash_of(sig);
                hp_delta = -(base + extra);
            },
            None => {},
        }
        let mut opened_gates: Vec<(String, String)> = Vec::new();
        if all_ok {
            let gates = &self.env.gates;
            let ghost pred = |g: GateSpec| opened_by(g, self.snapshot.nodes@, self.patches@, self.env.validators@, probe_id@, validator_id@, validator_kind@);
            let ghost proj = |g: GateSpec| (g.id@, g.kind@);
            for i in 0..gates.len()
                invariant
                    gates == &self.env.gates,
                    pred == (|g: GateSpec| opened_by(g, self.snapshot.nodes@, self.patches@, self.env.validators@, probe_id@, validator_id@, validator_kind@)),
                    proj == (|g: GateSpec| (g.id@, g.kind@)),
                    gate_pair_views(opened_gates@) == gates@.take(i as int).filter(pred).map_values(proj),
            {
                reveal(Seq::filter);
                assert(gates@.take(i + 1).drop_last() =~= gates@.take(i as int));
                let ghost f = gates@.take(i as int).filter(pred);
                let ghost before = opened_gates@;
                let opens = predicate_mentions_in(&gates[i].predicate, probe_id, validator_id, validator_kind)
                    && predicate_holds_in(&gates[i].predicate, &self.snapshot.nodes, Some(probe_id), &self.patches, &self.env.validators);
                if opens {
                    opened_gates.push((gates[i].id.clone(), gates[i].kind.clone()));
                    proof {
                        assert(gate_pair_views(opened_gates@) =~= gate_pair_views(before).push((gates@[i as int].id@, gates@[i as int].kind@)));
                        assert(f.push(gates@[i as int]).map_values(proj) =~= f.map_values(proj).push(proj(gates@[i as int])));
                    }
                }
            }
            assert(gates@.take(gates@.len() as int) =~= gates@);
        } else {
            assert(gate_pair_views(opened_gates@) =~= Seq::empty());
        }
        ProbeVerdict { status, failure_signature, hp_delta, opened_gates }
    }
}


/// Whether some pair in the list has the given gate id.
pub fn opened_gate_id_list_contains(list: &Vec<(String, String)>, gate_id: &String) -> (r: bool)
    ensures
        r == exists|i: int| 0 <= i < list@.len() && (#[trigger] list@[i]).0@ == gate_id@,
{
    for i in 0..list.len()
        invariant
            forall|j: int| 0 <= j < i ==> list@[j].0@ != gate_id@,
    {
        if list[i].0 == *gate_id {
            return true;
        }
    }
    false
}

proof fn lemma_heal_in_range(sparks: Seq<SparkStateView>, id: Seq<char>, kinds: Seq<Seq<char>>, hp: HpSpec)
    requires
        hp.max >= 0,
        forall|i: int| 0 <= i < sparks.len() && sparks[i].id == id ==> 0 <= #[trigger] sparks[i].hp <= hp.max,
    ensures
        heal_all(sparks, id, kinds, hp).len() == sparks.len(),
        forall|i: int| 0 <= i < sparks.len() && sparks[i].id == id ==> 0 <= #[trigger] heal_all(sparks, id, kinds, hp)[i].hp <= hp.max,
        forall|i: int| 0 <= i < sparks.len() && sparks[i].id != id ==> #[trigger] heal_all(sparks, id, kinds, hp)[i] == sparks[i],
    decreases kinds.len(),
{
    if kinds.len() > 0 {
        lemma_heal_in_range(sparks, id, kinds.drop_last(), hp);
        lemma_heal_keeps_ids(sparks, id, kinds.drop_last(), hp);
    }
}

/// After a probe result every spark with the running spark's id has its HP
/// within `0..=max` (for a non-negative maximum), and every other spark is as
/// it was.
pub proof fn lemma_probe_result_hp_in_range(
    st: RunState,
    spark_id: Seq<char>,
    hp_delta: i32,
    opened: Seq<(String, String)>,
    evidence: Seq<char>,
)
    requires
        st.env.hp.max >= 0,
    ensures
        ({
            let s0 = spark_views(st.snapshot.sparks@);
            let s = sparks_after_probe(st, spark_id, hp_delta, opened, evidence);
            &&& s.len() == s0.len()
            &&& forall|i: int| 0 <= i < s0.len() && s0[i].id == spark_id ==> 0 <= #[trigger] s[i].hp <= st.env.hp.max
            &&& forall|i: int| 0 <= i < s0.len() && s0[i].id != spark_id ==> #[trigger] s[i] == s0[i]
        }),
{
    let s0 = spark_views(st.snapshot.sparks@);
    let s1 = clamp_all(s0, spark_id, hp_delta, st.env.hp.max);
    let s2 = push_first(s1, spark_id, evidence);
    lemma_find_spark(s1, spark_id);
    assert forall|i: int| 0 <= i < s2.len() && s2[i].id == spark_id implies 0 <= #[trigger] s2[i].hp <= st.env.hp.max by {
        lemma_push_first_hp(s1, spark_id, evidence, i);
    }
    assert forall|i: int| 0 <= i < s1.len() && s1[i].id != spark_id implies #[trigger] s2[i] == s1[i] by {
        lemma_push_first_hp(s1, spark_id, evidence, i);
    }
    lemma_heal_in_range(s2, spark_id, opened_kinds(st.env.gates@, gate_ids(opened)), st.env.hp);
    assert forall|i: int| 0 <= i < s0.len() && s0[i].id == spark_id implies 0 <= #[trigger] sparks_after_probe(st, spark_id, hp_delta, opened, evidence)[i].hp <= st.env.hp.max by {
        lemma_push_first_hp(s1, spark_id, evidence, i);
    }
    assert forall|i: int| 0 <= i < s0.len() && s0[i].id != spark_id implies #[trigger] sparks_after_probe(st, spark_id, hp_delta, opened, evidence)[i] == s0[i] by {
        lemma_push_first_hp(s1, spark_id, evidence, i);
    }
}

/// The ids of the opened gates, in order.
pub open spec fn gate_ids(opened: Seq<(String, String)>) -> Seq<Seq<char>> {
    opened.map_values(|p: (String, String)| p.0@)
}

/// The sparks after a probe result is applied: the running spark's HP change
/// (kept within `0..=max`), the evidence carried by the first spark with that
/// id, then one heal per opened gate, by the kind of its gate spec.
pub open spec fn sparks_after_probe(st: RunState, spark_id: Seq<char>, hp_delta: i32, opened: Seq<(String, String)>, evidence: Seq<char>) -> Seq<SparkStateView> {
    let s1 = clamp_all(spark_views(st.snapshot.sparks@), spark_id, hp_delta, st.env.hp.max);
    let s2 = push_first(s1, spark_id, evidence);
    heal_all(s2, spark_id, opened_kinds(st.env.gates@, gate_ids(opened)), st.env.hp)
}

/// Applying the probe result keeps every HP change within `i32` (and the HP
/// bound is usable when the spark exists).
pub open spec fn probe_result_fits(st: RunState, spark_id: Seq<char>, hp_delta: i32, opened: Seq<(String, String)>, evidence: Seq<char>) -> bool {
    let s0 = spark_views(st.snapshot.sparks@);
    let s1 = clamp_all(s0, spark_id, hp_delta, st.env.hp.max);
    let s2 = push_first(s1, spark_id, evidence);
    &&& has_spark(s0, spark_id) ==> st.env.hp.max >= 0
    &&& clamp_all_fits(s0, spark_id, hp_delta)
    &&& heal_fits(s2, spark_id, opened_kinds(st.env.gates@, gate_ids(opened)), st.env.hp)
}

/// The probe status that a run's status string reports.
pub open spec fn outcome_of(status: Seq<char>) -> ProbeStatus {
    if status == "pass"@ { ProbeStatus::Pass } else { ProbeStatus::Fail }
}

/// The nodes after a probe result: the probe node's status, then the opened gates.
pub open spec fn nodes_after_probe(nodes: Seq<BoardNode>, probe_id: Seq<char>, status: Seq<char>, opened: Seq<(String, String)>) -> Seq<BoardNode> {
    nodes_open_gates(nodes_with_probe(nodes, probe_id, outcome_of(status)), gate_ids(opened))
}

/// The nodes that a probe result changes, once per id.
pub open spec fn nodes_changed_by_probe(nodes: Seq<BoardNode>, probe_id: Seq<char>, status: Seq<char>, opened: Seq<(String, String)>) -> Seq<BoardNodeView> {
    let n1 = nodes_with_probe(nodes, probe_id, outcome_of(status));
    let n2 = nodes_open_gates(n1, gate_ids(opened));
    dedup_by_id(
        nodes_with_id_views(n1, probe_id) + n2.filter(|n: BoardNode| guards_one_of(n, gate_ids(opened))).map_values(node_view()),
    )
}

/// Copies of the nodes that guard one of the gates.
fn copies_guarding(nodes: &Vec<BoardNode>, gates: &Vec<String>) -> (r: Vec<BoardNode>)
    ensures
        r@.map_values(node_view()) == nodes@.filter(|n: BoardNode| guards_one_of(n, strs(gates@))).map_values(node_view()),
{
    let mut r: Vec<BoardNode> = Vec::new();
    let ghost pred = |n: BoardNode| guards_one_of(n, strs(gates@));
    for i in 0..nodes.len()
        invariant
            pred == (|n: BoardNode| guards_one_of(n, strs(gates@))),
            r@.map_values(node_view()) == nodes@.take(i as int).filter(pred).map_values(node_view()),
    {
        reveal(Seq::filter);
        assert(nodes@.take(i + 1).drop_last() =~= nodes@.take(i as int));
        let ghost f = nodes@.take(i as int).filter(pred);
        let ghost before = r@;
        let guards = match &nodes[i].gate_id {
            Some(g) => contains_str(gates, g),
            None => false,
        };
        if guards {
            r.push(nodes[i].clone());
            proof {
                assert(r@.map_values(node_view()) =~= before.map_values(node_view()).push(nodes@[i as int]@));
                assert(f.push(nodes@[i as int]).map_values(node_view()) =~= f.map_values(node_view()).push(nodes@[i as int]@));
            }
        }
    }
    assert(nodes@.take(nodes@.len() as int) =~= nodes@);
    r
}

/// Copies of all the edges.
pub fn copy_edges(edges: &Vec<BoardEdge>) -> (r: Vec<BoardEdge>)
    ensures
        r@.map_values(edge_view()) == edges@.map_values(edge_view()),
{
    let mut r: Vec<BoardEdge> = Vec::new();
    for i in 0..edges.len()
        invariant
            r@.map_values(edge_view()) == edges@.take(i as int).map_values(edge_view()),
    {
        let ghost before = r@;
        r.push(edges[i].clone());
        proof {
            assert(r@.map_values(edge_view()) =~= before.map_values(edge_view()).push(edges@[i as int]@));
            assert(edges@.take(i + 1).map_values(edge_view()) =~= edges@.take(i as int).map_values(edge_view()).push(edges@[i as int]@));
        }
    }
    assert(edges@.take(edges@.len() as int) =~= edges@);
    r
}

impl RunState {
    /// Marks the probe node(s) as running.
    pub fn mark_probe_running(&mut self, probe_id: &String)
        ensures
            final(self).snapshot.nodes@ == nodes_with_probe(old(self).snapshot.nodes@, probe_id@, ProbeStatus::Running),
            final(self).snapshot.sparks == old(self).snapshot.sparks,
            keeps_record(*old(self), *final(self)),
    {
        mark_probe(&mut self.snapshot.nodes, probe_id, ProbeStatus::Running);
    }

}


impl RunState {
    /// Applies the outcome of a probe run: records the failure signature, changes
    /// the running spark's HP (kept within `0..=max`), gives the first spark
    /// with that id the evidence, sets the probe node's status, heals once per
    /// opened gate and opens those gates. The change lists each changed node
    /// once, all edges and all sparks. The spark is a DC
    /// ([`RunState::probe_plan`] refuses any other before the probe runs).
    ///
    /// `None` when an HP change would leave `i32` (the state is then partly
    /// updated).
    pub fn apply_probe_result(
        &mut self,
        spark_id: &String,
        probe_id: &String,
        verdict: &ProbeVerdict,
        evidence_item_id: &String,
    ) -> (r: Option<BoardDiff>)
        requires
            role_refusal(spark_views(old(self).snapshot.sparks@), spark_id@, SparkKind::Dc) is None,
        ensures
            r is Some <==> probe_result_fits(*old(self), spark_id@, verdict.hp_delta, verdict.opened_gates@, evidence_item_id@),
            r matches Some(diff) ==> {
                &&& strs(final(self).failure_history@) == match verdict.failure_signature {
                    Some(sig) => strs(old(self).failure_history@).push(sig@),
                    None => strs(old(self).failure_history@),
                }
                &&& spark_views(final(self).snapshot.sparks@) == sparks_after_probe(
                    *old(self),
                    spark_id@,
                    verdict.hp_delta,
                    verdict.opened_gates@,
                    evidence_item_id@,
                )
                &&& final(self).snapshot.nodes@ == nodes_after_probe(
                    old(self).snapshot.nodes@,
                    probe_id@,
                    verdict.status@,
                    verdict.opened_gates@,
                )
                &&& diff_only(diff)
                &&& diff.upsert_nodes matches Some(n) && n@.map_values(node_view()) == nodes_changed_by_probe(
                    old(self).snapshot.nodes@,
                    probe_id@,
                    verdict.status@,
                    verdict.opened_gates@,
                )
                &&& diff.upsert_edges matches Some(e) && e@.map_values(edge_view()) == final(self).snapshot.edges@.map_values(edge_view())
                &&& diff.upsert_sparks matches Some(s) && spark_views(s@) == spark_views(final(self).snapshot.sparks@)
            },
            final(self).snapshot.edges == old(self).snapshot.edges,
            final(self).snapshot.run_id == old(self).snapshot.run_id,
            final(self).env == old(self).env,
            final(self).env_spec_path == old(self).env_spec_path,
            final(self).workspace_path == old(self).workspace_path,
            final(self).last_edits == old(self).last_edits,
            final(self).patches == old(self).patches,
            final(self).inbox == old(self).inbox,
            final(self).seed == old(self).seed,
    {
        let ghost s0 = spark_views(self.snapshot.sparks@);
        let ghost n0 = self.snapshot.nodes@;
        let ghost hist0 = self.failure_history@;
        match &verdict.failure_signature {
            Some(sig) => {
                self.failure_history.push(sig.clone());
                assert(strs(self.failure_history@) =~= strs(hist0).push(sig@));
            },
            None => {},
        }
        let max = self.env.hp.max;
        if !clamp_hp_all_checked(&mut self.snapshot.sparks, spark_id, verdict.hp_delta, max) {
            return None;
        }
        let ghost s1 = spark_views(self.snapshot.sparks@);
        push_item_first(&mut self.snapshot.sparks, spark_id, evidence_item_id);
        let ghost s2 = spark_views(self.snapshot.sparks@);
        proof {
            lemma_clamp_all_keeps_ids(s0, spark_id@, verdict.hp_delta, max);
            lemma_push_first_ids(s1, spark_id@, evidence_item_id@);
            lemma_same_ids_has_spark(s0, s1, spark_id@);
            lemma_same_ids_has_spark(s1, s2, spark_id@);
        }
        let outcome = if str_eq(verdict.status.as_str(), "pass") {
            ProbeStatus::Pass
        } else {
            ProbeStatus::Fail
        };
        mark_probe(&mut self.snapshot.nodes, probe_id, outcome);
        let ghost n1 = self.snapshot.nodes@;
        let mut upsert = copies_with_id(&self.snapshot.nodes, probe_id);

        let opened = &verdict.opened_gates;
        let mut ids: Vec<String> = Vec::new();
        for k in 0..opened.len()
            invariant
                opened == &verdict.opened_gates,
                strs(ids@) == gate_ids(opened@.take(k as int)),
        {
            let ghost before = ids@;
            ids.push(opened[k].0.clone());
            assert(strs(ids@) =~= strs(before).push(opened@[k as int].0@));
            assert(opened@.take(k + 1) =~= opened@.take(k as int).push(opened@[k as int]));
            assert(gate_ids(opened@.take(k + 1)) =~= gate_ids(opened@.take(k as int)).push(opened@[k as int].0@));
        }
        assert(opened@.take(opened@.len() as int) =~= opened@);
        let kinds = kinds_of_gates(&self.env.gates, &ids);
        proof {
            lemma_same_ids_has_spark(s0, s2, spark_id@);
        }
        if !heal_sparks(&mut self.snapshot.sparks, spark_id, &kinds, &self.env.hp) {
            return None;
        }
        open_gates(&mut self.snapshot.nodes, &ids);
        let guarded = copies_guarding(&self.snapshot.nodes, &ids);
        let ghost first_part = upsert@.map_values(node_view());
        for k in 0..guarded.len()
            invariant
                upsert@.map_values(node_view()) == first_part + guarded@.take(k as int).map_values(node_view()),
        {
            let ghost before = upsert@;
            upsert.push(guarded[k].clone());
            assert(upsert@.map_values(node_view()) =~= before.map_values(node_view()).push(guarded@[k as int]@));
            assert(guarded@.take(k + 1).map_values(node_view()) =~= guarded@.take(k as int).map_values(node_view()).push(guarded@[k as int]@));
        }
        assert(guarded@.take(guarded@.len() as int) =~= guarded@);
        let nodes = dedup_nodes(upsert);
        let edges = copy_edges(&self.snapshot.edges);
        let sparks = copy_sparks(&self.snapshot.sparks);
        proof {
            assert(n1 == nodes_with_probe(n0, probe_id@, outcome_of(verdict.status@)));
            assert((|n: BoardNode| n@) == node_view());
        }
        Some(BoardDiff {
            upsert_nodes: Some(nodes),
            delete_node_ids: None,
            upsert_edges: Some(edges),
            delete_edge_ids: None,
            upsert_sparks: Some(sparks),
        })
    }
}


// ---------------------------------------------------------------------------
// Workspace paths
// ---------------------------------------------------------------------------

/// An absolute path (on Unix: one that starts at the root).
pub open spec fn is_absolute_path(p: Seq<char>) -> bool {
    p.len() > 0 && p[0] == '/'
}

/// The path has a `..` component (a `..` between separators or path ends).
pub open spec fn has_parent_component(p: Seq<char>) -> bool {
    exists|i: int|
        0 <= i && i + 2 <= p.len() && #[trigger] p[i] == '.' && p[i + 1] == '.' && (i == 0 || p[i - 1]
            == '/') && (i + 2 == p.len() || p[i + 2] == '/')
}

/// `base` joined with the relative path `rel`, adding a separator when `base`
/// is non-empty and does not end in one (as `Path::join` does on Unix).
pub open spec fn join_path(base: Seq<char>, rel: Seq<char>) -> Seq<char> {
    if base.len() > 0 && base.last() != '/' {
        base + seq!['/'] + rel
    } else {
        base + rel
    }
}

/// Joins a user-supplied relative path onto the workspace, refusing absolute
/// paths and paths with a `..` component.
pub fn secure_join(base: &String, user_path: &String) -> (r: Result<String, WorldError>)
    ensures
        match r {
            Ok(joined) => !is_absolute_path(user_path@) && !has_parent_component(user_path@)
                && joined@ == join_path(base@, user_path@),
            Err(WorldError::PathTraversal(m)) => if is_absolute_path(user_path@) {
                m@ == "Absolute path rejected: "@ + user_path@
            } else {
                has_parent_component(user_path@) && m@ == "Traversal rejected: "@ + user_path@
            },
            Err(_) => false,
        },
{
    let cs = chars_of(user_path.as_str());
    if cs.len() > 0 && cs[0] == '/' {
        return Err(WorldError::PathTraversal(concat("Absolute path rejected: ", user_path.as_str())));
    }
    let n = cs.len();
    assert(!is_absolute_path(user_path@));
    for i in 0..n
        invariant
            n == cs@.len(),
            cs@ == user_path@,
            !is_absolute_path(user_path@),
            forall|k: int|
                0 <= k < i && k + 2 <= n && #[trigger] cs@[k] == '.' ==> !(cs@[k + 1] == '.' && (k == 0
                    || cs@[k - 1] == '/') && (k + 2 == n || cs@[k + 2] == '/')),
    {
        if n - i >= 2 && cs[i] == '.' && cs[i + 1] == '.' && (i == 0 || cs[i - 1] == '/') && (i + 2
            == n || cs[i + 2] == '/') {
            assert(has_parent_component(user_path@));
            return Err(WorldError::PathTraversal(concat("Traversal rejected: ", user_path.as_str())));
        }
    }
    let bs = chars_of(base.as_str());
    let mut joined = base.clone();
    if bs.len() > 0 && bs[bs.len() - 1] != '/' {
        joined.append("/");
        proof {
            reveal_strlit("/");
        }
    }
    joined.append(user_path.as_str());
    assert(bs@ == base@);
    Ok(joined)
}

// ---------------------------------------------------------------------------
// Roles and edit permissions
// ---------------------------------------------------------------------------

/// The patterns of an allow-list; a missing list becomes `!**`.
pub open spec fn allow_patterns(globs: Option<Vec<String>>) -> Seq<Seq<char>> {
    match globs {
        Some(g) => strs(g@),
        None => seq!["!**"@],
    }
}

/// The patterns of an allow-list held by reference.
pub open spec fn allow_patterns_ref(globs: Option<&Vec<String>>) -> Seq<Seq<char>> {
    match globs {
        Some(g) => strs(g@),
        None => seq!["!**"@],
    }
}

/// Every pattern compiles and the set builds.
pub open spec fn patterns_build(ps: Seq<Seq<char>>) -> bool {
    (forall|i: int| 0 <= i < ps.len() ==> glob_compiles(#[trigger] ps[i])) && glob_set_builds(ps)
}

/// Compiles an allow-list into a glob set (`!**` when the list is absent).
pub fn globset_from_opt_secure(globs: Option<&Vec<String>>) -> (r: Result<globset::GlobSet, globset::Error>)
    ensures
        r is Ok <==> patterns_build(allow_patterns_ref(globs)),
        r matches Ok(s) ==> glob_set_patterns(s) == allow_patterns_ref(globs),
{
    let mut b = glob_set_builder_new();
    let ghost pats = allow_patterns_ref(globs);
    match globs {
        Some(gs) => {
            assert(pats == strs(gs@));
            for i in 0..gs.len()
                invariant
                    pats == strs(gs@),
                    pats == allow_patterns_ref(globs),
                    crate::third_party::builder_patterns(b) == pats.take(i as int),
                    forall|k: int| 0 <= k < i ==> glob_compiles(#[trigger] pats[k]),
            {
                match glob_new(gs[i].as_str()) {
                    Ok(g) => {
                        glob_set_builder_add(&mut b, g);
                        assert(pats.take(i + 1) =~= pats.take(i as int).push(gs@[i as int]@));
                    },
                    Err(e) => {
                        assert(pats[i as int] == gs@[i as int]@);
                        assert(!glob_compiles(pats[i as int]));
                        return Err(e);
                    },
                }
            }
            assert(pats.take(gs@.len() as int) =~= pats);
        },
        None => {
            let lit = "!**";
            match glob_new(lit) {
                Ok(g) => {
                    glob_set_builder_add(&mut b, g);
                    assert(seq![lit@] =~= Seq::<Seq<char>>::empty().push(lit@));
                },
                Err(e) => {
                    assert(pats[0] == lit@);
                    assert(!glob_compiles(pats[0]));
                    return Err(e);
                },
            }
        },
    }
    glob_set_builder_build(&b)
}

/// The role of the first spark with the given id: `NotFound` when there is
/// none, `AclViolation` when it is not of the wanted kind.
pub open spec fn role_check(sparks: Seq<SparkStateView>, spark_id: Seq<char>, kind: SparkKind) -> Option<Seq<char>> {
    match find_spark(sparks, spark_id) {
        None => Some(spark_id),
        Some(i) => if sparks[i].kind == kind {
            None
        } else {
            Some(spark_id)
        },
    }
}

/// The message with which an operation reserved to sparks of `kind` refuses
/// `spark_id`: `Not found: <id>` when the run has no such spark,
/// `ACL Violation: spark is not AC|DC` when it has another role; `None` when
/// the spark may act.
pub open spec fn role_refusal(sparks: Seq<SparkStateView>, spark_id: Seq<char>, kind: SparkKind) -> Option<Seq<char>> {
    match find_spark(sparks, spark_id) {
        None => Some("Not found: "@ + spark_id),
        Some(i) => if sparks[i].kind == kind {
            None
        } else {
            Some("ACL Violation: "@ + (if kind == SparkKind::Ac { "spark is not AC"@ } else { "spark is not DC"@ }))
        },
    }
}

impl RunState {
    fn assert_role(&self, spark_id: &String, kind: SparkKind) -> (r: Result<(), WorldError>)
        ensures
            match find_spark(spark_views(self.snapshot.sparks@), spark_id@) {
                None => r matches Err(WorldError::NotFound(m)) && m@ == spark_id@,
                Some(i) => if spark_views(self.snapshot.sparks@)[i].kind == kind {
                    r is Ok
                } else {
                    r matches Err(WorldError::AclViolation(m)) && m@ == (if kind == SparkKind::Ac {
                        "spark is not AC"@
                    } else {
                        "spark is not DC"@
                    })
                },
            },
    {
        match find_spark_index(&self.snapshot.sparks, spark_id) {
            None => Err(WorldError::NotFound(spark_id.clone())),
            Some(i) => {
                assert(spark_views(self.snapshot.sparks@)[i as int] == self.snapshot.sparks@[i as int]@);
                let actual = self.snapshot.sparks[i].kind;
                let same = match (actual, kind) {
                    (SparkKind::Ac, SparkKind::Ac) => true,
                    (SparkKind::Dc, SparkKind::Dc) => true,
                    _ => false,
                };
                if same {
                    Ok(())
                } else {
                    match kind {
                        SparkKind::Ac => Err(WorldError::AclViolation(owned("spark is not AC"))),
                        SparkKind::Dc => Err(WorldError::AclViolation(owned("spark is not DC"))),
                    }
                }
            },
        }
    }

    /// Checks that the spark is an AC: `NotFound(spark_id)` when the run has no
    /// such spark, `AclViolation("spark is not AC")` when it is a DC.
    pub fn assert_ac(&self, spark_id: &String) -> (r: Result<(), WorldError>)
        ensures
            match find_spark(spark_views(self.snapshot.sparks@), spark_id@) {
                None => r matches Err(WorldError::NotFound(m)) && m@ == spark_id@,
                Some(i) => if spark_views(self.snapshot.sparks@)[i].kind == SparkKind::Ac {
                    r is Ok
                } else {
                    r matches Err(WorldError::AclViolation(m)) && m@ == "spark is not AC"@
                },
            },
    {
        self.assert_role(spark_id, SparkKind::Ac)
    }

    /// Checks that the spark is a DC: `NotFound(spark_id)` when the run has no
    /// such spark, `AclViolation("spark is not DC")` when it is an AC.
    pub fn assert_dc(&self, spark_id: &String) -> (r: Result<(), WorldError>)
        ensures
            match find_spark(spark_views(self.snapshot.sparks@), spark_id@) {
                None => r matches Err(WorldError::NotFound(m)) && m@ == spark_id@,
                Some(i) => if spark_views(self.snapshot.sparks@)[i].kind == SparkKind::Dc {
                    r is Ok
                } else {
                    r matches Err(WorldError::AclViolation(m)) && m@ == "spark is not DC"@
                },
            },
    {
        self.assert_role(spark_id, SparkKind::Dc)
    }

    /// The refusal message for a spark that may not act as `kind` (see [`role_refusal`]).
    pub fn role_refusal_message(&self, spark_id: &String, kind: SparkKind) -> (r: Option<String>)
        ensures
            opt_str(r) == role_refusal(spark_views(self.snapshot.sparks@), spark_id@, kind),
    {
        match self.assert_role(spark_id, kind) {
            Ok(()) => None,
            Err(e) => Some(e.to_message()),
        }
    }
}


/// The workspace path an edit goes to, when the allow-list admits it and the
/// path stays inside the workspace.
pub open spec fn edit_admitted(allow: Seq<Seq<char>>, path: Seq<char>) -> bool {
    some_glob_matches(allow, path) && !is_absolute_path(path) && !has_parent_component(path)
}

/// The result of checking a list of edits, in order, up to the first refusal.
pub struct EditPlan {
    /// Where each leading admitted edit is written, in order.
    pub targets: Vec<String>,
    /// Why the first edit that was not admitted was refused.
    pub refusal: Option<WorldError>,
}

/// The plan for a list of edits: the leading admitted edits in order, and
/// the refusal of the first edit that is not admitted (an ACL violation when
/// the allow-list does not match it, otherwise the path error).
pub open spec fn plan_matches(plan: EditPlan, allow: Seq<Seq<char>>, workspace: Seq<char>, edits: Seq<FileEdit>, refusal_prefix: Seq<char>) -> bool {
    let k = plan.targets@.len();
    &&& k <= edits.len()
    &&& forall|i: int| 0 <= i < k ==> edit_admitted(allow, #[trigger] edits[i].path@) && plan.targets@[i]@
        == join_path(workspace, edits[i].path@)
    &&& plan.refusal is None <==> k == edits.len()
    &&& plan.refusal matches Some(err) ==> {
        let p = edits[k as int].path@;
        if !some_glob_matches(allow, p) {
            err matches WorldError::AclViolation(m) && m@ == refusal_prefix + p
        } else if is_absolute_path(p) {
            err matches WorldError::PathTraversal(m) && m@ == "Absolute path rejected: "@ + p
        } else {
            &&& has_parent_component(p)
            &&& err matches WorldError::PathTraversal(m) && m@ == "Traversal rejected: "@ + p
        }
    }
}

/// Checks edits in order against the allow-list and the workspace, up to the
/// first that is refused.
pub fn plan_edits(allow: &globset::GlobSet, workspace: &String, edits: &Vec<FileEdit>, refusal_prefix: &str) -> (plan: EditPlan)
    ensures
        plan_matches(plan, glob_set_patterns(*allow), workspace@, edits@, refusal_prefix@),
{
    let mut targets: Vec<String> = Vec::new();
    let ghost allowed = glob_set_patterns(*allow);
    for i in 0..edits.len()
        invariant
            allowed == glob_set_patterns(*allow),
            targets@.len() == i,
            forall|j: int| 0 <= j < i ==> edit_admitted(allowed, #[trigger] edits@[j].path@) && targets@[j]@
                == join_path(workspace@, edits@[j].path@),
    {
        let path = &edits[i].path;
        if !glob_set_is_match(allow, path.as_str()) {
            let plan = EditPlan {
                targets,
                refusal: Some(WorldError::AclViolation(concat(refusal_prefix, path.as_str()))),
            };
            return plan;
        }
        match secure_join(workspace, path) {
            Ok(joined) => {
                targets.push(joined);
            },
            Err(e) => {
                return EditPlan { targets, refusal: Some(e) };
            },
        }
    }
    EditPlan { targets, refusal: None }
}

impl RunState {
    /// Checks an AC's file edits: the spark must be an AC, and each edit must
    /// match the AC's allow-list and stay inside the workspace. Fails with
    /// `Internal` when the allow-list does not compile.
    pub fn plan_ac_edits(&self, spark_id: &String, edits: &Vec<FileEdit>) -> (r: Result<EditPlan, WorldError>)
        ensures
            match find_spark(spark_views(self.snapshot.sparks@), spark_id@) {
                None => r matches Err(WorldError::NotFound(m)) && m@ == spark_id@,
                Some(i) => if spark_views(self.snapshot.sparks@)[i].kind != SparkKind::Ac {
                    r matches Err(WorldError::AclViolation(m)) && m@ == "spark is not AC"@
                } else if !patterns_build(allow_patterns(self.env.permissions.ac.allow_edit_paths)) {
                    r matches Err(WorldError::Internal(_))
                } else {
                    r matches Ok(plan) && plan_matches(
                        plan,
                        allow_patterns(self.env.permissions.ac.allow_edit_paths),
                        self.workspace_path@,
                        edits@,
                        "AC cannot edit path "@,
                    )
                },
            },
    {
        match self.assert_ac(spark_id) {
            Ok(()) => {},
            Err(e) => {
                return Err(e);
            },
        }
        let allow = match globset_from_opt_secure(self.env.permissions.ac.allow_edit_paths.as_ref()) {
            Ok(a) => a,
            Err(e) => {
                return Err(WorldError::Internal(glob_error_text(&e)));
            },
        };
        Ok(plan_edits(&allow, &self.workspace_path, edits, "AC cannot edit path "))
    }

    /// Checks a DC's config edits: the spark must be a DC, config editing must
    /// be enabled (an allow-list present), and each edit must match the
    /// allow-list and stay inside the workspace.
    pub fn plan_dc_config_edits(&self, spark_id: &String, edits: &Vec<FileEdit>) -> (r: Result<EditPlan, WorldError>)
        ensures
            match find_spark(spark_views(self.snapshot.sparks@), spark_id@) {
                None => r matches Err(WorldError::NotFound(m)) && m@ == spark_id@,
                Some(i) => if spark_views(self.snapshot.sparks@)[i].kind != SparkKind::Dc {
                    r matches Err(WorldError::AclViolation(m)) && m@ == "spark is not DC"@
                } else if !patterns_build(allow_patterns(self.env.permissions.dc.allow_config_paths)) {
                    r matches Err(WorldError::Internal(_))
                } else if self.env.permissions.dc.allow_config_paths is None {
                    r matches Err(WorldError::AclViolation(m)) && m@ == "dc_edit_config not enabled"@
                } else {
                    r matches Ok(plan) && plan_matches(
                        plan,
                        allow_patterns(self.env.permissions.dc.allow_config_paths),
                        self.workspace_path@,
                        edits@,
                        "DC cannot edit config path "@,
                    )
                },
            },
    {
        match self.assert_dc(spark_id) {
            Ok(()) => {},
            Err(e) => {
                return Err(e);
            },
        }
        let allow = match globset_from_opt_secure(self.env.permissions.dc.allow_config_paths.as_ref()) {
            Ok(a) => a,
            Err(e) => {
                return Err(WorldError::Internal(glob_error_text(&e)));
            },
        };
        if self.env.permissions.dc.allow_config_paths.is_none() {
            return Err(WorldError::AclViolation(owned("dc_edit_config not enabled")));
        }
        Ok(plan_edits(&allow, &self.workspace_path, edits, "DC cannot edit config path "))
    }

    /// Records a path written by the AC since its last patch.
    pub fn record_edit(&mut self, path: String)
        ensures
            final(self).last_edits@ == old(self).last_edits@.push(path),
            final(self).snapshot == old(self).snapshot,
            final(self).env_spec_path == old(self).env_spec_path,
            final(self).workspace_path == old(self).workspace_path,
            final(self).env == old(self).env,
            final(self).failure_history == old(self).failure_history,
            final(self).inbox == old(self).inbox,
            final(self).seed == old(self).seed,
    {
        self.last_edits.push(path);
    }
}


// ---------------------------------------------------------------------------
// Patches
// ---------------------------------------------------------------------------

/// Every staged path stays inside the workspace.
pub open spec fn all_inside(paths: Seq<String>) -> bool {
    forall|i: int| 0 <= i < paths.len() ==> !is_absolute_path(#[trigger] paths[i]@) && !has_parent_component(paths[i]@)
}

/// `after` is `before` with the patch item carried by its creator and handed
/// off to every DC, the patch recorded, and nothing staged any more.
pub open spec fn patch_handed(before: RunState, after: RunState, spark_id: Seq<char>, item_id: Seq<char>) -> bool {
    &&& spark_views(after.snapshot.sparks@) == sparks_after_patch(spark_views(before.snapshot.sparks@), spark_id, item_id)
    &&& strs(after.patches@) == strs(before.patches@).push(item_id)
    &&& after.last_edits@.len() == 0
    &&& after.snapshot.nodes == before.snapshot.nodes
    &&& after.env_spec_path == before.env_spec_path
    &&& after.workspace_path == before.workspace_path
    &&& after.env == before.env
    &&& after.snapshot.run_id == before.snapshot.run_id
    &&& after.snapshot.edges == before.snapshot.edges
    &&& after.failure_history == before.failure_history
    &&& after.inbox == before.inbox
    &&& after.seed == before.seed
}

impl RunState {
    /// What packaging the staged edits needs: the staged paths, and where each
    /// is in the workspace. Only an AC creates patches: any other spark is
    /// refused first (see [`role_refusal`]). Fails when nothing is staged or a
    /// staged path leaves the workspace.
    pub fn begin_patch(&self, spark_id: &String) -> (r: Result<(Vec<String>, Vec<String>), String>)
        ensures
            role_refusal(spark_views(self.snapshot.sparks@), spark_id@, SparkKind::Ac) matches Some(m)
                ==> r matches Err(e) && e@ == m,
            role_refusal(spark_views(self.snapshot.sparks@), spark_id@, SparkKind::Ac) is None ==> match r {
                Err(m) => if self.last_edits@.len() == 0 {
                    m@ == "no edits staged; nothing to patch"@
                } else {
                    !all_inside(self.last_edits@) && m@ == "Security: path traversal"@
                },
                Ok((touched, abs)) => {
                    &&& self.last_edits@.len() > 0
                    &&& all_inside(self.last_edits@)
                    &&& touched@ == self.last_edits@
                    &&& abs@.len() == touched@.len()
                    &&& forall|i: int| 0 <= i < abs@.len() ==> (#[trigger] abs@[i])@ == join_path(self.workspace_path@, touched@[i]@)
                },
            },
    {
        match self.role_refusal_message(spark_id, SparkKind::Ac) {
            Some(m) => {
                return Err(m);
            },
            None => {},
        }
        let touched = copy_strings(&self.last_edits);
        if touched.len() == 0 {
            return Err(owned("no edits staged; nothing to patch"));
        }
        let mut abs: Vec<String> = Vec::new();
        for i in 0..touched.len()
            invariant
                touched@ == self.last_edits@,
                role_refusal(spark_views(self.snapshot.sparks@), spark_id@, SparkKind::Ac) is None,
                abs@.len() == i,
                forall|j: int| 0 <= j < i ==> !is_absolute_path(#[trigger] touched@[j]@) && !has_parent_component(touched@[j]@)
                    && abs@[j]@ == join_path(self.workspace_path@, touched@[j]@),
        {
            match secure_join(&self.workspace_path, &touched[i]) {
                Ok(j) => {
                    abs.push(j);
                },
                Err(_) => {
                    return Err(owned("Security: path traversal"));
                },
            }
        }
        Ok((touched, abs))
    }

    /// Records the patch, gives its item to the creating AC (the first spark
    /// with the id; [`RunState::begin_patch`] refuses any other), hands it off
    /// to every DC, and clears the staged edits.
    pub fn finish_patch(&mut self, spark_id: &String, item_id: &String)
        requires
            role_refusal(spark_views(old(self).snapshot.sparks@), spark_id@, SparkKind::Ac) is None,
        ensures
            patch_handed(*old(self), *final(self), spark_id@, item_id@),
    {
        carry_item(&mut self.snapshot.sparks, spark_id, item_id);
        hand_item_to_dcs(&mut self.snapshot.sparks, item_id);
        let ghost p0 = self.patches@;
        self.patches.push(item_id.clone());
        assert(strs(self.patches@) =~= strs(p0).push(item_id@));
        self.last_edits.clear();
    }

    /// Checks that a DC may apply the patch: the spark must be a DC that
    /// carries the patch.
    pub fn check_apply_patch(&self, spark_id: &String, patch_id: &String) -> (r: Result<(), String>)
        ensures
            match find_spark(spark_views(self.snapshot.sparks@), spark_id@) {
                None => r matches Err(m) && m@ == "Not found: "@ + spark_id@,
                Some(i) => if spark_views(self.snapshot.sparks@)[i].kind != SparkKind::Dc {
                    r matches Err(m) && m@ == "ACL Violation: "@ + "spark is not DC"@
                } else if !spark_views(self.snapshot.sparks@)[i].carrying.contains(patch_id@) {
                    r matches Err(m) && m@ == "DC not carrying patch_id"@
                } else {
                    r is Ok
                },
            },
    {
        match self.assert_dc(spark_id) {
            Ok(()) => {},
            Err(e) => {
                return Err(e.to_message());
            },
        }
        let i = match find_spark_index(&self.snapshot.sparks, spark_id) {
            Some(i) => i,
            None => {
                return Err(owned("missing spark"));
            },
        };
        assert(spark_views(self.snapshot.sparks@)[i as int] == self.snapshot.sparks@[i as int]@);
        if !contains_str(&self.snapshot.sparks[i].carrying, patch_id) {
            return Err(owned("DC not carrying patch_id"));
        }
        Ok(())
    }
}


// ---------------------------------------------------------------------------
// Patch capsules
// ---------------------------------------------------------------------------

/// One file of a patch capsule; a field is `None` when the capsule's entry
/// lacks it (or holds no string there).
#[derive(Debug, Clone, PartialEq, Eq)]
pub struct CapsuleFile {
    pub path: Option<String>,
    pub contents: Option<String>,
}

/// A patch capsule: the patch message, each file with its contents, and the
/// touched paths; a field is `None` when the capsule lacks it.
#[derive(Debug, Clone, PartialEq, Eq)]
pub struct PatchCapsule {
    pub message: Option<String>,
    pub files: Option<Vec<CapsuleFile>>,
    pub touched_paths: Option<Vec<String>>,
}

/// The capsule packaging the staged edits: the message, each touched path
/// with its contents, and the touched paths.
pub fn patch_capsule(message: &str, touched: &Vec<String>, contents: &Vec<String>) -> (r: PatchCapsule)
    requires
        contents@.len() == touched@.len(),
    ensures
        r.message matches Some(m) && m@ == message@,
        r.touched_paths matches Some(t) && t@ == touched@,
        r.files matches Some(f) && f@.len() == touched@.len() && forall|i: int|
            0 <= i < f@.len() ==> (#[trigger] f@[i]).path == Some(touched@[i]) && f@[i].contents == Some(contents@[i]),
{
    let mut files: Vec<CapsuleFile> = Vec::new();
    let n = touched.len();
    for i in 0..n
        invariant
            n == touched@.len(),
            contents@.len() == n,
            files@.len() == i,
            forall|j: int| 0 <= j < i ==> (#[trigger] files@[j]).path == Some(touched@[j]) && files@[j].contents == Some(contents@[j]),
    {
        files.push(CapsuleFile { path: Some(touched[i].clone()), contents: Some(contents[i].clone()) });
    }
    PatchCapsule { message: Some(owned(message)), files: Some(files), touched_paths: Some(copy_strings(touched)) }
}

/// The paths a capsule says it touches (none when it lists none).
pub fn capsule_touched_paths(capsule: &PatchCapsule) -> (r: Vec<String>)
    ensures
        r@ == match capsule.touched_paths {
            Some(t) => t@,
            None => Seq::<String>::empty(),
        },
{
    match &capsule.touched_paths {
        Some(t) => copy_strings(t),
        None => Vec::new(),
    }
}

/// Where the files of a patch are written, in order, up to the first entry
/// that cannot be written.
#[derive(Debug, Clone, PartialEq, Eq)]
pub struct PatchWrites {
    /// `(workspace path, contents)` of each leading writable entry.
    pub writes: Vec<(String, String)>,
    /// Why the first entry that cannot be written was refused.
    pub refusal: Option<String>,
}

/// The writes for a capsule's files: the leading entries that have a path and
/// contents and stay inside the workspace, and the refusal of the first that
/// does not.
pub open spec fn patch_writes_match(w: PatchWrites, workspace: Seq<char>, files: Seq<CapsuleFile>) -> bool {
    let k = w.writes@.len();
    &&& k <= files.len()
    &&& forall|i: int| 0 <= i < k ==> {
        &&& #[trigger] files[i].path matches Some(p)
        &&& files[i].contents matches Some(c)
        &&& !is_absolute_path(p@)
        &&& !has_parent_component(p@)
        &&& w.writes@[i].0@ == join_path(workspace, p@)
        &&& w.writes@[i].1@ == c@
    }
    &&& w.refusal is None <==> k == files.len()
    &&& w.refusal matches Some(m) ==> match files[k as int].path {
        None => m@ == "file entry missing path"@,
        Some(p) => match files[k as int].contents {
            None => m@ == "file entry missing contents"@,
            Some(_) => (is_absolute_path(p@) || has_parent_component(p@)) && m@ == "Security: path traversal in patch"@,
        },
    }
}

/// Checks a capsule's files, in order, for where they are written; fails when
/// the capsule has no file list.
pub fn plan_patch_writes(workspace: &String, capsule: &PatchCapsule) -> (r: Result<PatchWrites, String>)
    ensures
        match capsule.files {
            None => r matches Err(m) && m@ == "patch has no files array"@,
            Some(files) => r matches Ok(w) && patch_writes_match(w, workspace@, files@),
        },
{
    let files = match &capsule.files {
        Some(f) => f,
        None => {
            return Err(owned("patch has no files array"));
        },
    };
    let mut writes: Vec<(String, String)> = Vec::new();
    for i in 0..files.len()
        invariant
            capsule.files == Some(*files),
            writes@.len() == i,
            forall|j: int| 0 <= j < i ==> {
                &&& #[trigger] files@[j].path matches Some(p)
                &&& files@[j].contents matches Some(c)
                &&& !is_absolute_path(p@)
                &&& !has_parent_component(p@)
                &&& writes@[j].0@ == join_path(workspace@, p@)
                &&& writes@[j].1@ == c@
            },
    {
        let path = match &files[i].path {
            Some(p) => p,
            None => {
                return Ok(PatchWrites { writes, refusal: Some(owned("file entry missing path")) });
            },
        };
        let contents = match &files[i].contents {
            Some(c) => c,
            None => {
                return Ok(PatchWrites { writes, refusal: Some(owned("file entry missing contents")) });
            },
        };
        match secure_join(workspace, path) {
            Ok(target) => {
                writes.push((target, contents.clone()));
            },
            Err(_) => {
                return Ok(PatchWrites { writes, refusal: Some(owned("Security: path traversal in patch")) });
            },
        }
    }
    Ok(PatchWrites { writes, refusal: None })
}

// ---------------------------------------------------------------------------
// Paths of runs
// ---------------------------------------------------------------------------

/// `base` joined with `p` as `Path::join` does on Unix: an absolute `p`
/// replaces `base`.
pub open spec fn path_join(base: Seq<char>, p: Seq<char>) -> Seq<char> {
    if is_absolute_path(p) {
        p
    } else {
        join_path(base, p)
    }
}

/// `base` joined with `p` as `Path::join` does on Unix.
pub fn join(base: &String, p: &str) -> (r: String)
    ensures
        r@ == path_join(base@, p@),
{
    let cp = chars_of(p);
    if cp.len() > 0 && cp[0] == '/' {
        return owned(p);
    }
    let bs = chars_of(base.as_str());
    let mut joined = base.clone();
    if bs.len() > 0 && bs[bs.len() - 1] != '/' {
        joined.append("/");
        proof {
            reveal_strlit("/");
        }
    }
    joined.append(p);
    joined
}

/// The two snapshots show the same board: same run, and nodes, edges and
/// sparks equal in every observable part.
pub open spec fn same_board(a: BoardSnapshot, b: BoardSnapshot) -> bool {
    &&& a.run_id@ == b.run_id@
    &&& a.nodes@.map_values(node_view()) == b.nodes@.map_values(node_view())
    &&& a.edges@.map_values(edge_view()) == b.edges@.map_values(edge_view())
    &&& spark_views(a.sparks@) == spark_views(b.sparks@)
}

/// A copy of a snapshot, equal in every observable part.
pub fn copy_snapshot(s: &BoardSnapshot) -> (r: BoardSnapshot)
    ensures
        same_board(r, *s),
{
    let mut nodes: Vec<BoardNode> = Vec::new();
    for i in 0..s.nodes.len()
        invariant
            nodes@.map_values(node_view()) == s.nodes@.take(i as int).map_values(node_view()),
    {
        let ghost before = nodes@;
        nodes.push(s.nodes[i].clone());
        assert(nodes@.map_values(node_view()) =~= before.map_values(node_view()).push(s.nodes@[i as int]@));
        assert(s.nodes@.take(i + 1).map_values(node_view()) =~= s.nodes@.take(i as int).map_values(node_view()).push(s.nodes@[i as int]@));
    }
    assert(s.nodes@.take(s.nodes@.len() as int) =~= s.nodes@);
    BoardSnapshot {
        run_id: s.run_id.clone(),
        nodes,
        edges: copy_edges(&s.edges),
        sparks: copy_sparks(&s.sparks),
    }
}

/// The state of a new run: the initial board of the environment, nothing
/// staged, no failures, an empty inbox.
pub open spec fn is_fresh_run(
    st: RunState,
    run_id: Seq<char>,
    env_spec_path: String,
    workspace_path: String,
    env: EnvironmentSpec,
    seed: Option<u64>,
) -> bool {
    &&& st.env_spec_path == env_spec_path
    &&& st.workspace_path == workspace_path
    &&& st.seed == seed
    &&& st.env == env
    &&& st.snapshot.run_id@ == run_id
    &&& st.snapshot.nodes@.map_values(node_view()) == env.board.nodes@.map_values(|n: BoardNode| initial_node(n)@)
    &&& st.snapshot.edges@.map_values(edge_view()) == env.board.edges@.map_values(edge_view())
    &&& spark_views(st.snapshot.sparks@) == env.team.sparks@.map_values(|m: TeamSpark| initial_spark(env, m))
    &&& st.last_edits@.len() == 0
    &&& st.failure_history@.len() == 0
    &&& st.patches@.len() == 0
    &&& st.inbox@.len() == 0
}

/// The items of the patches created in the log, in log order.
pub open spec fn patches_logged(events: Seq<crate::storage::event_log::RunEvent>) -> Seq<Seq<char>>
    decreases events.len(),
{
    if events.len() == 0 {
        Seq::empty()
    } else {
        let rest = patches_logged(events.drop_last());
        let e = events.last();
        if e.event_type@ == "PatchCreated"@ && e.payload.spark_id is Some && e.payload.item_id is Some {
            rest.push(e.payload.item_id->0@)
        } else {
            rest
        }
    }
}

/// The items of the patches created in the log (see [`patches_logged`]).
pub fn logged_patches(events: &Vec<crate::storage::event_log::RunEvent>) -> (r: Vec<String>)
    ensures
        strs(r@) == patches_logged(events@),
{
    let mut r: Vec<String> = Vec::new();
    for i in 0..events.len()
        invariant
            strs(r@) == patches_logged(events@.take(i as int)),
    {
        assert(events@.take(i + 1).drop_last() =~= events@.take(i as int));
        assert(events@.take(i + 1).last() == events@[i as int]);
        let ghost before = r@;
        let e = &events[i];
        if str_eq(e.event_type.as_str(), "PatchCreated") && e.payload.spark_id.is_some() {
            match &e.payload.item_id {
                Some(item) => {
                    r.push(item.clone());
                    assert(strs(r@) =~= strs(before).push(item@));
                },
                None => {},
            }
        }
    }
    assert(events@.take(events@.len() as int) =~= events@);
    r
}

impl RunState {
    /// The state of a new run: the initial board of the environment, nothing
    /// staged, no failures, an empty inbox.
    pub fn new(run_id: &str, env_spec_path: String, workspace_path: String, env: EnvironmentSpec, seed: Option<u64>) -> (st: RunState)
        ensures
            is_fresh_run(st, run_id@, env_spec_path, workspace_path, env, seed),
    {
        let snapshot = initial_snapshot(run_id, &env);
        assert(snapshot.nodes@.map_values(node_view()) =~= env.board.nodes@.map_values(|n: BoardNode| initial_node(n)@));
        assert(snapshot.edges@.map_values(edge_view()) =~= env.board.edges@.map_values(edge_view()));
        RunState {
            env_spec_path,
            workspace_path,
            env,
            snapshot,
            last_edits: Vec::new(),
            failure_history: Vec::new(),
            patches: Vec::new(),
            inbox: Vec::new(),
            seed,
        }
    }

    /// The state of a run rebuilt from its log: the initial board with every
    /// logged event replayed in order, and the largest sequence number seen.
    /// `None` when replaying would change an HP beyond `i32`.
    pub fn restore(run_id: &str, env_spec_path: String, workspace_path: String, env: EnvironmentSpec, seed: Option<u64>, events: &Vec<crate::storage::event_log::RunEvent>) -> (r: Option<(RunState, u64)>)
        ensures
            r is Some <==> replay_fits(env, initial_board_state(env), events@),
            r matches Some((st, m)) ==> {
                &&& st.env == env
                &&& st.env_spec_path == env_spec_path
                &&& st.workspace_path == workspace_path
                &&& st.seed == seed
                &&& st.snapshot.run_id@ == run_id@
                &&& st.snapshot.edges@.map_values(edge_view()) == env.board.edges@.map_values(edge_view())
                &&& m == max_seq(events@)
                &&& st.last_edits@.len() == 0
                &&& st.inbox@.len() == 0
                &&& strs(st.patches@) == patches_logged(events@)
                &&& exists|s0: BoardSnapshot| {
                    &&& s0.nodes@.map_values(node_view()) == env.board.nodes@.map_values(|n: BoardNode| initial_node(n)@)
                    &&& spark_views(s0.sparks@) == env.team.sparks@.map_values(|m: TeamSpark| initial_spark(env, m))
                    &&& s0.edges == st.snapshot.edges
                    &&& replay_fits(env, board_state(s0, Seq::empty()), events@)
                    &&& board_state(st.snapshot, st.failure_history@) == replay(env, board_state(s0, Seq::empty()), events@)
                }
            },
    {
        let mut st = RunState::new(run_id, env_spec_path, workspace_path, env, seed);
        let ghost s0 = st.snapshot;
        let ghost h0 = st.failure_history@;
        assert(h0 =~= Seq::<String>::empty());
        proof {
            lemma_replay_sparks(env, board_state(s0, h0), initial_board_state(env), events@);
        }
        match replay_events(&st.env, &mut st.snapshot, &mut st.failure_history, events) {
            Some(m) => {
                st.patches = logged_patches(events);
                Some((st, m))
            },
            None => None,
        }
    }
}

// ---------------------------------------------------------------------------
// The run registry
// ---------------------------------------------------------------------------

/// The runs the world holds, each under its id, and the next sequence number
/// for world actions.
pub struct WorldService {
    pub runs: Vec<(String, RunState)>,
    pub runs_root: String,
    pub next_seq: u64,
}

/// No two runs share an id.
pub open spec fn run_ids_distinct(runs: Seq<(String, RunState)>) -> bool {
    forall|i: int, j: int| 0 <= i < runs.len() && 0 <= j < runs.len() && i != j ==> #[trigger] runs[i].0@ != #[trigger] runs[j].0@
}

/// The run held under the id.
pub open spec fn run_named(runs: Seq<(String, RunState)>, id: Seq<char>) -> Option<RunState> {
    if exists|i: int| 0 <= i < runs.len() && #[trigger] runs[i].0@ == id {
        Some(runs[choose|i: int| 0 <= i < runs.len() && #[trigger] runs[i].0@ == id].1)
    } else {
        None
    }
}

proof fn lemma_run_named_at(runs: Seq<(String, RunState)>, i: int)
    requires
        run_ids_distinct(runs),
        0 <= i < runs.len(),
    ensures
        run_named(runs, runs[i].0@) == Some(runs[i].1),
{
    let c = choose|c: int| 0 <= c < runs.len() && #[trigger] runs[c].0@ == runs[i].0@;
    assert(c == i);
}

/// `after` is `before` once the number `seq` was taken for a world action.
pub open spec fn seq_taken(before: WorldService, after: WorldService, seq: u64) -> bool {
    seq == before.next_seq && after.next_seq == before.next_seq + 1
}

/// Successive world actions get increasing sequence numbers: a number taken
/// after another, with nothing between that winds the counter back (actions
/// and observations leave it alone), is larger.
pub proof fn lemma_successive_actions_numbered_in_order(
    w0: WorldService,
    w1: WorldService,
    w2: WorldService,
    w3: WorldService,
    s1: u64,
    s2: u64,
)
    requires
        seq_taken(w0, w1, s1),
        w2.next_seq >= w1.next_seq,
        seq_taken(w2, w3, s2),
    ensures
        s1 < s2,
{
}

impl WorldService {
    /// The world's well-formedness: run ids are distinct.
    pub open spec fn wf(&self) -> bool {
        run_ids_distinct(self.runs@)
    }

    /// The run held under the id.
    pub open spec fn run(&self, id: Seq<char>) -> Option<RunState> {
        run_named(self.runs@, id)
    }

    /// A world with no runs; world actions are numbered from 1.
    pub fn new(runs_root: &String) -> (w: WorldService)
        ensures
            w.wf(),
            forall|id: Seq<char>| #[trigger] w.run(id) is None,
            w.runs_root@ == runs_root@,
            w.next_seq == 1,
    {
        WorldService { runs: Vec::new(), runs_root: runs_root.clone(), next_seq: 1 }
    }

    /// The workspace of a run: `<runs root>/<run id>/workspace`.
    pub fn workspace_path_for(&self, run_id: &str) -> (r: String)
        ensures
            r@ == path_join(path_join(self.runs_root@, run_id@), "workspace"@),
    {
        let dir = join(&self.runs_root, run_id);
        join(&dir, "workspace")
    }

    /// The position of the run with the given id.
    pub fn run_index(&self, run_id: &str) -> (r: Option<usize>)
        requires
            self.wf(),
        ensures
            match r {
                Some(i) => i < self.runs@.len() && self.runs@[i as int].0@ == run_id@ && self.run(run_id@) == Some(self.runs@[i as int].1),
                None => self.run(run_id@) is None,
            },
    {
        for i in 0..self.runs.len()
            invariant
                run_ids_distinct(self.runs@),
                forall|j: int| 0 <= j < i ==> self.runs@[j].0@ != run_id@,
        {
            if crate::text::str_eq(self.runs[i].0.as_str(), run_id) {
                proof {
                    lemma_run_named_at(self.runs@, i as int);
                }
                return Some(i);
            }
        }
        None
    }

    /// Holds the state under the run id, replacing any earlier state of that run.
    pub fn install_run(&mut self, run_id: String, state: RunState)
        requires
            old(self).wf(),
        ensures
            final(self).wf(),
            final(self).run(run_id@) == Some(state),
            forall|id: Seq<char>| id != run_id@ ==> #[trigger] final(self).run(id) == old(self).run(id),
            final(self).next_seq == old(self).next_seq,
            final(self).runs_root == old(self).runs_root,
    {
        let ghost key = run_id@;
        match self.run_index(run_id.as_str()) {
            Some(i) => {
                let ghost before = self.runs@;
                self.runs.set(i, (run_id, state));
                proof {
                    assert forall|a: int, b: int| 0 <= a < self.runs@.len() && 0 <= b < self.runs@.len() && a != b implies #[trigger] self.runs@[a].0@ != #[trigger] self.runs@[b].0@ by {
                        if a != i && b != i {
                            assert(before[a].0@ != before[b].0@);
                        } else if a == i {
                            assert(before[b].0@ != before[i as int].0@);
                        } else {
                            assert(before[a].0@ != before[i as int].0@);
                        }
                    }
                    lemma_run_named_at(self.runs@, i as int);
                    assert forall|id: Seq<char>| id != key implies #[trigger] run_named(self.runs@, id) == run_named(before, id) by {
                        if exists|k: int| 0 <= k < before.len() && #[trigger] before[k].0@ == id {
                            let k = choose|k: int| 0 <= k < before.len() && #[trigger] before[k].0@ == id;
                            assert(k != i);
                            assert(self.runs@[k] == before[k]);
                            lemma_run_named_at(before, k);
                            lemma_run_named_at(self.runs@, k);
                        } else {
                            assert forall|k: int| 0 <= k < self.runs@.len() implies #[trigger] self.runs@[k].0@ != id by {
                                if k != i {
                                    assert(self.runs@[k] == before[k]);
                                }
                            }
                        }
                    }
                }
            },
            None => {
                let ghost before = self.runs@;
                self.runs.push((run_id, state));
                proof {
                    let n = before.len() as int;
                    assert forall|a: int, b: int| 0 <= a < self.runs@.len() && 0 <= b < self.runs@.len() && a != b implies #[trigger] self.runs@[a].0@ != #[trigger] self.runs@[b].0@ by {
                        if a != n && b != n {
                            assert(before[a].0@ != before[b].0@);
                        } else if a == n {
                            assert(self.runs@[b] == before[b]);
                            assert(before[b].0@ != key);
                        } else {
                            assert(self.runs@[a] == before[a]);
                            assert(before[a].0@ != key);
                        }
                    }
                    lemma_run_named_at(self.runs@, n);
                    assert forall|id: Seq<char>| id != key implies #[trigger] run_named(self.runs@, id) == run_named(before, id) by {
                        if exists|k: int| 0 <= k < before.len() && #[trigger] before[k].0@ == id {
                            let k = choose|k: int| 0 <= k < before.len() && #[trigger] before[k].0@ == id;
                            assert(self.runs@[k] == before[k]);
                            lemma_run_named_at(before, k);
                            lemma_run_named_at(self.runs@, k);
                        } else {
                            assert forall|k: int| 0 <= k < self.runs@.len() implies #[trigger] self.runs@[k].0@ != id by {
                                if k < n {
                                    assert(self.runs@[k] == before[k]);
                                }
                            }
                        }
                    }
                }
            },
        }
    }

    /// Forgets the run with the given id (if held).
    pub fn clear_run(&mut self, run_id: &str)
        requires
            old(self).wf(),
        ensures
            final(self).wf(),
            final(self).run(run_id@) is None,
            forall|id: Seq<char>| id != run_id@ ==> #[trigger] final(self).run(id) == old(self).run(id),
            final(self).next_seq == old(self).next_seq,
            final(self).runs_root == old(self).runs_root,
    {
        match self.run_index(run_id) {
            Some(i) => {
                let ghost before = self.runs@;
                let _removed = self.runs.remove(i);
                proof {
                    assert(self.runs@ =~= before.remove(i as int));
                    assert forall|a: int, b: int| 0 <= a < self.runs@.len() && 0 <= b < self.runs@.len() && a != b implies #[trigger] self.runs@[a].0@ != #[trigger] self.runs@[b].0@ by {
                        let a2 = if a < i { a } else { a + 1 };
                        let b2 = if b < i { b } else { b + 1 };
                        assert(self.runs@[a] == before[a2]);
                        assert(self.runs@[b] == before[b2]);
                    }
                    assert forall|k: int| 0 <= k < self.runs@.len() implies #[trigger] self.runs@[k].0@ != run_id@ by {
                        let k2 = if k < i { k } else { k + 1 };
                        assert(self.runs@[k] == before[k2]);
                        assert(before[k2].0@ != before[i as int].0@);
                    }
                    assert forall|id: Seq<char>| id != run_id@ implies #[trigger] run_named(self.runs@, id) == run_named(before, id) by {
                        if exists|k: int| 0 <= k < before.len() && #[trigger] before[k].0@ == id {
                            let k = choose|k: int| 0 <= k < before.len() && #[trigger] before[k].0@ == id;
                            assert(k != i);
                            let k2 = if k < i { k } else { k - 1 };
                            assert(self.runs@[k2] == before[k]);
                            lemma_run_named_at(before, k);
                            lemma_run_named_at(self.runs@, k2);
                        } else {
                            assert forall|k: int| 0 <= k < self.runs@.len() implies #[trigger] self.runs@[k].0@ != id by {
                                let k2 = if k < i { k } else { k + 1 };
                                assert(self.runs@[k] == before[k2]);
                            }
                        }
                    }
                }
            },
            None => {},
        }
    }

    /// Takes the next sequence number for a world action.
    pub fn take_seq(&mut self) -> (seq: u64)
        requires
            old(self).next_seq < u64::MAX,
        ensures
            seq_taken(*old(self), *final(self), seq),
            seq == old(self).next_seq,
            final(self).next_seq == old(self).next_seq + 1,
            final(self).runs == old(self).runs,
            final(self).runs_root == old(self).runs_root,
    {
        let seq = self.next_seq;
        self.next_seq = self.next_seq + 1;
        seq
    }

    /// Continues numbering world actions after a replayed log.
    pub fn resume_after(&mut self, max_seq: u64)
        requires
            max_seq < u64::MAX,
        ensures
            final(self).next_seq == max_seq + 1,
            final(self).runs == old(self).runs,
            final(self).runs_root == old(self).runs_root,
    {
        self.next_seq = max_seq + 1;
    }
}


/// The change an action made, its sequence number and its run.
pub struct DiffOutcome {
    pub diff: BoardDiff,
    pub seq: u64,
    pub run_id: String,
}

/// The result of packaging the staged edits.
pub struct PatchOutcome {
    pub patch_id: String,
    pub item_id: String,
    pub touched_paths: Vec<String>,
}

/// The result of running a probe.
pub struct ProbeOutcome {
    pub status: String,
    pub evidence_item_ids: Vec<String>,
    pub artifact_refs: Vec<String>,
    pub failure_signature: Option<String>,
    pub diff: BoardDiff,
    pub seq: u64,
    pub event_payload: serde_json::Value,
}

/// What a world action does to a run, and the change it reports.
pub open spec fn action_effect(before: RunState, after: RunState, action: WorldAction, diff: BoardDiff) -> bool {
    match action {
        WorldAction::Move { spark_id, to_node_id, .. } => {
            &&& moved(before, after, spark_id@, to_node_id@)
            &&& diff.upsert_sparks matches Some(s) && spark_views(s@) == spark_views(after.snapshot.sparks@)
            &&& diff.upsert_nodes is None
            &&& diff.upsert_edges is None
            &&& diff_only(diff)
        },
        WorldAction::Energize { object_id, .. } => {
            &&& energized(before, after, object_id@)
            &&& diff.upsert_nodes matches Some(n) && n@.map_values(node_view()) == nodes_with_id_views(after.snapshot.nodes@, object_id@)
            &&& diff.upsert_sparks is None
            &&& diff.upsert_edges is None
            &&& diff_only(diff)
        },
    }
}

/// The run an action names.
pub open spec fn action_run(action: WorldAction) -> String {
    match action {
        WorldAction::Move { run_id, .. } => run_id,
        WorldAction::Energize { run_id, .. } => run_id,
    }
}

impl WorldService {
    /// What a spark of a run perceives; `unknown run` when the world holds no such run.
    pub fn observe(&self, run_id: &str, spark_id: &String) -> (r: Result<(SparkState, VisibleSlice, Vec<SignalMsg>), String>)
        requires
            self.wf(),
        ensures
            match self.run(run_id@) {
                None => r matches Err(m) && m@ == "unknown run"@,
                Some(st) => observation_of(st, spark_id@, r),
            },
    {
        match self.run_index(run_id) {
            None => Err(owned("unknown run")),
            Some(i) => self.runs[i].1.observe(spark_id),
        }
    }

    /// Applies a move or energize action to its run (numbered `seq`);
    /// `NotFound(run id)` when the world holds no such run.
    pub fn act(&mut self, action: &WorldAction, seq: u64) -> (r: Result<DiffOutcome, WorldError>)
        requires
            old(self).wf(),
        ensures
            final(self).wf(),
            final(self).next_seq == old(self).next_seq,
            forall|id: Seq<char>| id != action_run(*action)@ ==> #[trigger] final(self).run(id) == old(self).run(id),
            match old(self).run(action_run(*action)@) {
                None => r matches Err(WorldError::NotFound(m)) && m@ == action_run(*action)@ && final(self).runs == old(self).runs,
                Some(before) => {
                    &&& r matches Ok(out)
                    &&& out.seq == seq
                    &&& out.run_id@ == action_run(*action)@
                    &&& final(self).run(action_run(*action)@) matches Some(after)
                    &&& action_effect(before, after, *action, out.diff)
                },
            },
    {
        let run_id = match action {
            WorldAction::Move { run_id, .. } => run_id,
            WorldAction::Energize { run_id, .. } => run_id,
        };
        let i = match self.run_index(run_id.as_str()) {
            Some(i) => i,
            None => {
                return Err(WorldError::NotFound(run_id.clone()));
            },
        };
        let ghost before = self.runs@;
        let (key, mut st) = self.runs.remove(i);
        let diff = match action {
            WorldAction::Move { spark_id, to_node_id, .. } => st.apply_move(spark_id, to_node_id),
            WorldAction::Energize { object_id, .. } => st.apply_energize(object_id),
        };
        self.runs.insert(i, (key, st));
        proof {
            assert(self.runs@ =~= before.update(i as int, (before[i as int].0, st)));
            crate::engine::world::lemma_update_run(before, i as int, st);
        }
        Ok(DiffOutcome { diff, seq, run_id: run_id.clone() })
    }

    /// Charges a policy violation to the spark of a run; `None` when the world
    /// holds no such run or the run no such spark.
    pub fn apply_policy_violation(&mut self, run_id: &str, spark_id: &String) -> (r: Option<i32>)
        requires
            old(self).wf(),
            old(self).run(run_id@) matches Some(st) ==> policy_violation_fits(st, spark_id@),
        ensures
            final(self).wf(),
            forall|id: Seq<char>| id != run_id@ ==> #[trigger] final(self).run(id) == old(self).run(id),
            match old(self).run(run_id@) {
                None => r is None && final(self).runs == old(self).runs,
                Some(before) => final(self).run(run_id@) matches Some(after) && violation_charged(before, after, spark_id@, r),
            },
    {
        let i = match self.run_index(run_id) {
            Some(i) => i,
            None => {
                return None;
            },
        };
        let ghost before = self.runs@;
        let (key, mut st) = self.runs.remove(i);
        let r = st.apply_policy_violation(spark_id);
        self.runs.insert(i, (key, st));
        proof {
            assert(self.runs@ =~= before.update(i as int, (before[i as int].0, st)));
            lemma_update_run(before, i as int, st);
        }
        r
    }

    /// Whether a policy violation by the spark of the run keeps HP within
    /// `i32` (trivially so when there is no such run).
    pub fn policy_violation_fits(&self, run_id: &str, spark_id: &String) -> (r: bool)
        requires
            self.wf(),
        ensures
            r == (self.run(run_id@) matches Some(st) ==> policy_violation_fits(st, spark_id@)),
    {
        match self.run_index(run_id) {
            Some(i) => self.runs[i].1.policy_violation_fits(spark_id),
            None => true,
        }
    }
}

/// Replacing the state of a held run keeps ids distinct and changes only that run.
pub proof fn lemma_update_run(runs: Seq<(String, RunState)>, i: int, st: RunState)
    requires
        run_ids_distinct(runs),
        0 <= i < runs.len(),
    ensures
        run_ids_distinct(runs.update(i, (runs[i].0, st))),
        run_named(runs.update(i, (runs[i].0, st)), runs[i].0@) == Some(st),
        forall|id: Seq<char>| id != runs[i].0@ ==> #[trigger] run_named(runs.update(i, (runs[i].0, st)), id) == run_named(runs, id),
{
    let after = runs.update(i, (runs[i].0, st));
    assert forall|a: int, b: int| 0 <= a < after.len() && 0 <= b < after.len() && a != b implies #[trigger] after[a].0@ != #[trigger] after[b].0@ by {
        assert(after[a].0 == runs[a].0);
        assert(after[b].0 == runs[b].0);
    }
    lemma_run_named_at(after, i);
    assert forall|id: Seq<char>| id != runs[i].0@ implies #[trigger] run_named(after, id) == run_named(runs, id) by {
        if exists|k: int| 0 <= k < runs.len() && #[trigger] runs[k].0@ == id {
            let k = choose|k: int| 0 <= k < runs.len() && #[trigger] runs[k].0@ == id;
            assert(k != i);
            lemma_run_named_at(runs, k);
            lemma_run_named_at(after, k);
        } else {
            assert forall|k: int| 0 <= k < after.len() implies #[trigger] after[k].0@ != id by {
                assert(after[k].0 == runs[k].0);
            }
        }
    }
}


/// The largest sequence number among logged events (0 for none).
pub fn max_event_seq(events: &Vec<crate::storage::event_log::RunEvent>) -> (r: u64)
    ensures
        r == max_seq(events@),
{
    let mut m: u64 = 0;
    for i in 0..events.len()
        invariant
            m == max_seq(events@.take(i as int)),
    {
        assert(events@.take(i + 1).drop_last() =~= events@.take(i as int));
        if events[i].seq > m {
            m = events[i].seq;
        }
    }
    assert(events@.take(events@.len() as int) =~= events@);
    m
}

impl WorldService {
    /// Creates the state of a new run from its parsed environment and holds it
    /// under the run id. Answers the run's workspace (`<runs root>/<run
    /// id>/workspace`), its initial board and its seed (0 when none).
    pub fn init_run(&mut self, run_id: &str, env_spec_path: String, env: EnvironmentSpec, seed: Option<u64>) -> (r: (String, BoardSnapshot, u64))
        requires
            old(self).wf(),
        ensures
            final(self).wf(),
            final(self).next_seq == old(self).next_seq,
            final(self).runs_root == old(self).runs_root,
            forall|id: Seq<char>| id != run_id@ ==> #[trigger] final(self).run(id) == old(self).run(id),
            r.0@ == path_join(path_join(old(self).runs_root@, run_id@), "workspace"@),
            r.2 == (match seed { Some(s) => s, None => 0 }),
            final(self).run(run_id@) matches Some(st) && is_fresh_run(st, run_id@, env_spec_path, r.0, env, seed)
                && same_board(r.1, st.snapshot),
    {
        let workspace_path = self.workspace_path_for(run_id);
        let st = RunState::new(run_id, env_spec_path, workspace_path.clone(), env, seed);
        let snapshot = copy_snapshot(&st.snapshot);
        self.install_run(owned(run_id), st);
        let s = match seed {
            Some(s) => s,
            None => 0,
        };
        (workspace_path, snapshot, s)
    }

    /// A copy of the board of a held run; `None` when the world holds no such run.
    pub fn held_snapshot(&self, run_id: &str) -> (r: Option<BoardSnapshot>)
        requires
            self.wf(),
        ensures
            match self.run(run_id@) {
                Some(st) => r matches Some(s) && same_board(s, st.snapshot),
                None => r is None,
            },
    {
        match self.run_index(run_id) {
            Some(i) => Some(copy_snapshot(&self.runs[i].1.snapshot)),
            None => None,
        }
    }

    /// Rebuilds a run from its log and its recorded paths and holds it under
    /// the run id; world actions are then numbered after the log's last event.
    /// Answers a copy of the rebuilt board, or `None` (changing nothing) when
    /// replaying would change an HP beyond `i32`.
    pub fn load_run(
        &mut self,
        run_id: &str,
        info: crate::storage::event_log::RunInfo,
        env: EnvironmentSpec,
        events: &Vec<crate::storage::event_log::RunEvent>,
    ) -> (r: Option<BoardSnapshot>)
        requires
            old(self).wf(),
            max_seq(events@) < u64::MAX,
        ensures
            final(self).wf(),
            final(self).runs_root == old(self).runs_root,
            r is Some <==> replay_fits(env, initial_board_state(env), events@),
            r is None ==> *final(self) == *old(self),
            r matches Some(snap) ==> {
                &&& final(self).next_seq == max_seq(events@) + 1
                &&& forall|id: Seq<char>| id != run_id@ ==> #[trigger] final(self).run(id) == old(self).run(id)
                &&& final(self).run(run_id@) matches Some(st)
                &&& same_board(snap, st.snapshot)
                &&& snap.edges@.map_values(edge_view()) == env.board.edges@.map_values(edge_view())
                &&& st.snapshot.edges@.map_values(edge_view()) == env.board.edges@.map_values(edge_view())
                &&& st.snapshot.run_id@ == run_id@
                &&& st.env == env
                &&& st.env_spec_path == info.env_spec_path
                &&& st.workspace_path == info.workspace_path
                &&& st.seed == info.seed
                &&& st.last_edits@.len() == 0
                &&& st.inbox@.len() == 0
                &&& strs(st.patches@) == patches_logged(events@)
                &&& exists|s0: BoardSnapshot| {
                    &&& s0.nodes@.map_values(node_view()) == env.board.nodes@.map_values(|n: BoardNode| initial_node(n)@)
                    &&& spark_views(s0.sparks@) == env.team.sparks@.map_values(|m: TeamSpark| initial_spark(env, m))
                    &&& s0.edges == st.snapshot.edges
                    &&& board_state(st.snapshot, st.failure_history@) == replay(env, board_state(s0, Seq::empty()), events@)
                }
            },
    {
        let crate::storage::event_log::RunInfo { env_spec_path, workspace_path, seed } = info;
        match RunState::restore(run_id, env_spec_path, workspace_path, env, seed, events) {
            Some((st, m)) => {
                let snapshot = copy_snapshot(&st.snapshot);
                self.install_run(owned(run_id), st);
                let ghost mid = *self;
                self.resume_after(m);
                assert forall|id: Seq<char>| id != run_id@ implies #[trigger] self.run(id) == old(self).run(id) by {
                    assert(self.run(id) == mid.run(id));
                }
                Some(snapshot)
            },
            None => None,
        }
    }
}


// ---------------------------------------------------------------------------
// The log replays what was done live
// ---------------------------------------------------------------------------

/// The optional payload string is present and holds `v`.
pub open spec fn payload_is(o: Option<String>, v: Seq<char>) -> bool {
    o matches Some(s) && s@ == v
}

/// The event logs a move of the spark to the node.
pub open spec fn logs_move(e: crate::storage::event_log::RunEvent, spark_id: Seq<char>, to_node_id: Seq<char>) -> bool {
    e.event_type@ == "SparkMoved"@ && payload_is(e.payload.spark_id, spark_id) && payload_is(e.payload.to_node_id, to_node_id)
}

/// The event logs the energizing of the object.
pub open spec fn logs_energize(e: crate::storage::event_log::RunEvent, object_id: Seq<char>) -> bool {
    e.event_type@ == "ObjectEnergized"@ && payload_is(e.payload.object_id, object_id)
}

/// The event logs the closing of the relay.
pub open spec fn logs_relay_closed(e: crate::storage::event_log::RunEvent, relay_id: Seq<char>) -> bool {
    e.event_type@ == "RelayClosed"@ && payload_is(e.payload.relay_id, relay_id)
}

/// The event logs a policy violation of the spark with the HP change `r`
/// (absent when there was no such spark).
pub open spec fn logs_violation(e: crate::storage::event_log::RunEvent, spark_id: Seq<char>, r: Option<i32>) -> bool {
    &&& e.event_type@ == "PolicyViolation"@
    &&& payload_is(e.payload.spark_id, spark_id)
    &&& e.payload.hp_delta == match r {
        Some(d) => Some(d as i64),
        None => None,
    }
}

/// The event logs a patch created by the spark, carried as the item.
pub open spec fn logs_patch(e: crate::storage::event_log::RunEvent, spark_id: Seq<char>, item_id: Seq<char>) -> bool {
    e.event_type@ == "PatchCreated"@ && payload_is(e.payload.spark_id, spark_id) && payload_is(e.payload.item_id, item_id)
}

/// The names of the logged events are distinct.

/// Replaying the logged event of a move changes the board as the move did.
pub proof fn lemma_move_replays(
    before: RunState,
    after: RunState,
    spark_id: Seq<char>,
    to_node_id: Seq<char>,
    e: crate::storage::event_log::RunEvent,
)
    requires
        moved(before, after, spark_id, to_node_id),
        logs_move(e, spark_id, to_node_id),
    ensures
        event_step(before.env, board_state(before.snapshot, before.failure_history@), e) == board_state(after.snapshot, after.failure_history@),
{
    lemma_event_names_distinct();
}

/// Replaying the logged event of an energize changes the board as the energize did.
pub proof fn lemma_energize_replays(
    before: RunState,
    after: RunState,
    object_id: Seq<char>,
    e: crate::storage::event_log::RunEvent,
)
    requires
        energized(before, after, object_id),
        logs_energize(e, object_id),
    ensures
        event_step(before.env, board_state(before.snapshot, before.failure_history@), e) == board_state(after.snapshot, after.failure_history@),
{
    lemma_event_names_distinct();
}

/// Replaying the logged event of a relay closing changes the board as the closing did.
pub proof fn lemma_relay_close_replays(
    before: RunState,
    after: RunState,
    relay_id: Seq<char>,
    e: crate::storage::event_log::RunEvent,
)
    requires
        relay_closed(before, after, relay_id),
        logs_relay_closed(e, relay_id),
    ensures
        event_step(before.env, board_state(before.snapshot, before.failure_history@), e) == board_state(after.snapshot, after.failure_history@),
{
    lemma_event_names_distinct();
}

/// Replaying the logged event of a policy violation (with the HP change the
/// charge returned) changes the board as the charge did.
pub proof fn lemma_violation_replays(
    before: RunState,
    after: RunState,
    spark_id: Seq<char>,
    r: Option<i32>,
    e: crate::storage::event_log::RunEvent,
)
    requires
        violation_charged(before, after, spark_id, r),
        logs_violation(e, spark_id, r),
    ensures
        event_step(before.env, board_state(before.snapshot, before.failure_history@), e) == board_state(after.snapshot, after.failure_history@),
{
    lemma_event_names_distinct();
}

/// Replaying the logged event of a patch creation changes the board as the
/// live creation did: the creator carries the item and every DC has received it.
pub proof fn lemma_patch_replays(
    before: RunState,
    after: RunState,
    spark_id: Seq<char>,
    item_id: Seq<char>,
    e: crate::storage::event_log::RunEvent,
)
    requires
        patch_handed(before, after, spark_id, item_id),
        logs_patch(e, spark_id, item_id),
    ensures
        event_step(before.env, board_state(before.snapshot, before.failure_history@), e) == board_state(after.snapshot, after.failure_history@),
{
    lemma_event_names_distinct();
}


/// The event logs a probe result as the probe run does: the probe, its
/// status, the running spark, the HP change, the evidence item, the ids of
/// the gates it opened and the failure signature.
pub open spec fn logs_probe_result(
    e: crate::storage::event_log::RunEvent,
    spark_id: Seq<char>,
    probe_id: Seq<char>,
    verdict: ProbeVerdict,
    evidence: Seq<char>,
) -> bool {
    &&& e.event_type@ == "ProbeFinished"@
    &&& payload_is(e.payload.probe_id, probe_id)
    &&& payload_is(e.payload.status, verdict.status@)
    &&& payload_is(e.payload.spark_id, spark_id)
    &&& e.payload.hp_delta == Some(verdict.hp_delta as i64)
    &&& payload_is(e.payload.evidence_item_id, evidence)
    &&& e.payload.opened_gate_ids matches Some(g) && strs(g@) == gate_ids(verdict.opened_gates@)
    &&& opt_str(e.payload.failure_signature) == opt_str(verdict.failure_signature)
}

/// `after` is `before` with the probe result applied, as
/// [`RunState::apply_probe_result`] states it when it succeeds.
pub open spec fn probe_result_applied(
    before: RunState,
    after: RunState,
    spark_id: Seq<char>,
    probe_id: Seq<char>,
    verdict: ProbeVerdict,
    evidence: Seq<char>,
) -> bool {
    &&& strs(after.failure_history@) == match verdict.failure_signature {
        Some(sig) => strs(before.failure_history@).push(sig@),
        None => strs(before.failure_history@),
    }
    &&& spark_views(after.snapshot.sparks@) == sparks_after_probe(before, spark_id, verdict.hp_delta, verdict.opened_gates@, evidence)
    &&& after.snapshot.nodes@ == nodes_after_probe(before.snapshot.nodes@, probe_id, verdict.status@, verdict.opened_gates@)
    &&& after.env == before.env
}

/// Replaying the logged event of a probe result changes the board exactly as
/// the live result did: the probe node and the opened gates, the HP change
/// kept within `0..=max`, the evidence item, one heal per opened gate, and the
/// failure signature.
pub proof fn lemma_probe_result_replays(
    before: RunState,
    after: RunState,
    spark_id: Seq<char>,
    probe_id: Seq<char>,
    verdict: ProbeVerdict,
    evidence: Seq<char>,
    e: crate::storage::event_log::RunEvent,
)
    requires
        probe_result_applied(before, after, spark_id, probe_id, verdict, evidence),
        logs_probe_result(e, spark_id, probe_id, verdict, evidence),
        signature_only_on_failure(verdict),
    ensures
        event_step(before.env, board_state(before.snapshot, before.failure_history@), e) == board_state(after.snapshot, after.failure_history@),
{
    let p = e.payload;
    assert(p.hp_delta->0 as i32 == verdict.hp_delta);
    assert(opt_str(p.evidence_item_id) == Some(evidence));
    assert(crate::engine::board::logged_gate_ids(p) == gate_ids(verdict.opened_gates@));
    let st = event_step(before.env, board_state(before.snapshot, before.failure_history@), e);
    assert(st.1 == spark_views(after.snapshot.sparks@));
    assert(st.0 == after.snapshot.nodes@);
    assert(st.2 == strs(after.failure_history@));
}


/// The event type is one that changes the board when replayed.
pub open spec fn is_board_event(t: Seq<char>) -> bool {
    ||| t == "ProbeFinished"@
    ||| t == "RelayClosed"@
    ||| t == "PatchCreated"@
    ||| t == "SparkMoved"@
    ||| t == "ObjectEnergized"@
    ||| t == "PolicyViolation"@
}

/// One live step of a run and the event it logged: a move, energizing, a
/// closed relay, a policy violation, a created patch or a probe result, each
/// logged as the run does; or a step that leaves the board alone (staged
/// edits, an applied patch, a configuration edit, ...) logged under another
/// event type.
pub open spec fn action_logged(before: RunState, after: RunState, e: crate::storage::event_log::RunEvent) -> bool {
    ||| exists|sid: Seq<char>, to: Seq<char>| moved(before, after, sid, to) && #[trigger] logs_move(e, sid, to)
    ||| exists|o: Seq<char>| energized(before, after, o) && #[trigger] logs_energize(e, o)
    ||| exists|r: Seq<char>| relay_closed(before, after, r) && #[trigger] logs_relay_closed(e, r)
    ||| exists|sid: Seq<char>, r: Option<i32>| violation_charged(before, after, sid, r) && #[trigger] logs_violation(e, sid, r)
    ||| exists|sid: Seq<char>, item: Seq<char>| patch_handed(before, after, sid, item) && #[trigger] logs_patch(e, sid, item)
    ||| exists|sid: Seq<char>, pid: Seq<char>, v: ProbeVerdict, ev: Seq<char>|
        probe_result_applied(before, after, sid, pid, v, ev) && #[trigger] logs_probe_result(e, sid, pid, v, ev)
            && signature_only_on_failure(v)
    ||| {
        &&& !is_board_event(e.event_type@)
        &&& after.env == before.env
        &&& board_state(after.snapshot, after.failure_history@) == board_state(before.snapshot, before.failure_history@)
    }
}

/// Replaying the event of any logged step changes the board as the step did,
/// and the step keeps the environment.
pub proof fn lemma_step_replays(before: RunState, after: RunState, e: crate::storage::event_log::RunEvent)
    requires
        action_logged(before, after, e),
    ensures
        event_step(before.env, board_state(before.snapshot, before.failure_history@), e) == board_state(after.snapshot, after.failure_history@),
        after.env == before.env,
{
    if exists|sid: Seq<char>, to: Seq<char>| moved(before, after, sid, to) && #[trigger] logs_move(e, sid, to) {
        let (sid, to) = choose|sid: Seq<char>, to: Seq<char>| moved(before, after, sid, to) && #[trigger] logs_move(e, sid, to);
        lemma_move_replays(before, after, sid, to, e);
    } else if exists|o: Seq<char>| energized(before, after, o) && #[trigger] logs_energize(e, o) {
        let o = choose|o: Seq<char>| energized(before, after, o) && #[trigger] logs_energize(e, o);
        lemma_energize_replays(before, after, o, e);
    } else if exists|r: Seq<char>| relay_closed(before, after, r) && #[trigger] logs_relay_closed(e, r) {
        let r = choose|r: Seq<char>| relay_closed(before, after, r) && #[trigger] logs_relay_closed(e, r);
        lemma_relay_close_replays(before, after, r, e);
    } else if exists|sid: Seq<char>, r: Option<i32>| violation_charged(before, after, sid, r) && #[trigger] logs_violation(e, sid, r) {
        let (sid, r) = choose|sid: Seq<char>, r: Option<i32>| violation_charged(before, after, sid, r) && #[trigger] logs_violation(e, sid, r);
        lemma_violation_replays(before, after, sid, r, e);
    } else if exists|sid: Seq<char>, item: Seq<char>| patch_handed(before, after, sid, item) && #[trigger] logs_patch(e, sid, item) {
        let (sid, item) = choose|sid: Seq<char>, item: Seq<char>| patch_handed(before, after, sid, item) && #[trigger] logs_patch(e, sid, item);
        lemma_patch_replays(before, after, sid, item, e);
    } else if exists|sid: Seq<char>, pid: Seq<char>, v: ProbeVerdict, ev: Seq<char>|
        probe_result_applied(before, after, sid, pid, v, ev) && #[trigger] logs_probe_result(e, sid, pid, v, ev)
            && signature_only_on_failure(v) {
        let (sid, pid, v, ev) = choose|sid: Seq<char>, pid: Seq<char>, v: ProbeVerdict, ev: Seq<char>|
            probe_result_applied(before, after, sid, pid, v, ev) && #[trigger] logs_probe_result(e, sid, pid, v, ev)
                && signature_only_on_failure(v);
        lemma_probe_result_replays(before, after, sid, pid, v, ev, e);
    } else {
        lemma_event_names_distinct();
    }
}

/// Determinism of replay over a whole run: when each logged event records the
/// live step between two successive states of a run, replaying the log from
/// the first state's board rebuilds the last state's board (nodes, sparks and
/// failure history), and the environment never changes.
pub proof fn lemma_run_replays(states: Seq<RunState>, events: Seq<crate::storage::event_log::RunEvent>)
    requires
        states.len() == events.len() + 1,
        forall|i: int| 0 <= i < events.len() ==> action_logged(states[i], states[i + 1], #[trigger] events[i]),
    ensures
        states.last().env == states[0].env,
        replay(states[0].env, board_state(states[0].snapshot, states[0].failure_history@), events) == board_state(
            states.last().snapshot,
            states.last().failure_history@,
        ),
    decreases events.len(),
{
    if events.len() > 0 {
        let n = events.len() - 1;
        let s2 = states.drop_last();
        let e2 = events.drop_last();
        assert forall|i: int| 0 <= i < e2.len() implies action_logged(s2[i], s2[i + 1], #[trigger] e2[i]) by {
            assert(e2[i] == events[i]);
            assert(action_logged(states[i], states[i + 1], events[i]));
        }
        lemma_run_replays(s2, e2);
        assert(action_logged(states[n], states[n + 1], events[n]));
        lemma_step_replays(states[n], states[n + 1], events[n]);
        assert(s2.last() == states[n]);
        assert(events.last() == events[n]);
    }
}

/// A policy-violation charge (within the HP range it requires) never leaves
/// the charged spark below zero HP and touches no other spark; with no such
/// spark nothing changes.
pub proof fn lemma_violation_floors_at_zero(before: RunState, after: RunState, spark_id: Seq<char>, r: Option<i32>)
    requires
        policy_violation_fits(before, spark_id),
        violation_charged(before, after, spark_id, r),
    ensures
        ({
            let s0 = spark_views(before.snapshot.sparks@);
            let s1 = spark_views(after.snapshot.sparks@);
            &&& s1.len() == s0.len()
            &&& match find_spark(s0, spark_id) {
                Some(i) => s1[i].hp >= 0 && forall|j: int| 0 <= j < s0.len() && j != i ==> #[trigger] s1[j] == s0[j],
                None => s1 == s0,
            }
        }),
{
    lemma_find_spark(spark_views(before.snapshot.sparks@), spark_id);
}


/// What a failed run costs by the validator's kind: an integration validator
/// costs `integration_fail`; a quality, lint, typecheck or coverage validator
/// costs `quality_fail`; a unit or test validator, or one of any other kind,
/// costs `unit_fail`.
pub proof fn lemma_failure_damage_by_kind(hp: HpSpec, kind: Seq<char>)
    ensures
        kind == "integration"@ ==> base_damage(hp, kind) == hp.damage.integration_fail,
        kind == "quality"@ || kind == "lint"@ || kind == "typecheck"@ || kind == "coverage"@
            ==> base_damage(hp, kind) == hp.damage.quality_fail,
        kind == "unit"@ || kind == "test"@ ==> base_damage(hp, kind) == hp.damage.unit_fail,
        kind != "integration"@ && kind != "quality"@ && kind != "lint"@ && kind != "typecheck"@
            && kind != "coverage"@ ==> base_damage(hp, kind) == hp.damage.unit_fail,
{
    reveal_strlit("unit");
    reveal_strlit("test");
    reveal_strlit("integration");
    reveal_strlit("quality");
    reveal_strlit("lint");
    reveal_strlit("typecheck");
    reveal_strlit("coverage");
    assert("lint"@[0] != "unit"@[0]);
    assert("lint"@[0] != "test"@[0]);
    assert("quality"@.len() != "unit"@.len());
    assert("typecheck"@.len() != "unit"@.len());
    assert("coverage"@.len() != "unit"@.len());
    assert("lint"@.len() != "integration"@.len());
}

/// Recording a failure adds one occurrence of its own signature and none of
/// any other.
proof fn lemma_occurrences_push(history: Seq<Seq<char>>, s: Seq<char>, sig: Seq<char>)
    ensures
        occurrences(history.push(s), sig) == occurrences(history, sig) + if s == sig { 1nat } else { 0nat },
{
    reveal(Seq::filter);
    assert(history.push(s).drop_last() =~= history);
}

/// Failures with other signatures do not count toward the anti-thrash extra
/// for a signature.
pub proof fn lemma_other_failures_do_not_count(hp: HpSpec, history: Seq<Seq<char>>, other: Seq<char>, sig: Seq<char>)
    requires
        other != sig,
    ensures
        anti_thrash_damage(hp, history.push(other), sig) == anti_thrash_damage(hp, history, sig),
{
    lemma_occurrences_push(history, other, sig);
}

/// The anti-thrash extra: with the signature already recorded `k` times, a
/// failure costs `extra_damage` more exactly when `k` has reached
/// `repeat_failure_signature_after`, and nothing more without an anti-thrash
/// setting.
pub proof fn lemma_repeat_penalty(hp: HpSpec, sig: Seq<char>, k: nat)
    requires
        k <= u32::MAX,
    ensures
        anti_thrash_damage(hp, Seq::new(k, |i: int| sig), sig) == match hp.anti_thrash {
            Some(at) => if k >= at.repeat_failure_signature_after { at.extra_damage } else { 0i32 },
            None => 0i32,
        },
{
    lemma_repeated_occurrences(sig, k);
}

/// A history of `k` copies of a signature holds it `k` times.
proof fn lemma_repeated_occurrences(sig: Seq<char>, k: nat)
    ensures
        occurrences(Seq::new(k, |i: int| sig), sig) == k,
    decreases k,
{
    if k > 0 {
        let k1 = (k - 1) as nat;
        lemma_repeated_occurrences(sig, k1);
        assert(Seq::new(k, |i: int| sig) =~= Seq::new(k1, |i: int| sig).push(sig));
        lemma_occurrences_push(Seq::new(k1, |i: int| sig), sig, sig);
    } else {
        reveal(Seq::filter);
    }
}

} // verus!
