use circuitforge::engine::board::{dedup_nodes, find_visible_node_ids};
use circuitforge::engine::world::{
    capsule_touched_paths, globset_from_opt_secure, max_event_seq, opened_gate_id_list_contains,
    patch_capsule, plan_patch_writes, secure_join, CapsuleFile, PatchCapsule, RunState, WorldError,
    WorldService,
};
use circuitforge::ipc::commands::{ApiError, FileEdit, WorldAction};
use circuitforge::schemas::environment::{
    AntiThrashSpec, BoardEdge, BoardNode, BoardSpec, EdgeKind, EndpointRef, EnvironmentSpec,
    GateSpec, GateStatus, HpDamage, HpHeal, HpSpec, NodeKind, NodeStatus, PermissionsSpec,
    Predicate, ProbeStatus, RolePerms, SignalMsg, SparkKind, TeamConfig, TeamSpark, ValidatorSpec,
    Vec2,
};
use circuitforge::storage::event_log::{EventPayload, RunEvent, RunInfo};

fn node(id: &str, kind: NodeKind, validator: Option<&str>, gate: Option<&str>) -> BoardNode {
    BoardNode {
        id: id.into(),
        kind,
        label: id.to_uppercase(),
        pos: Vec2 { x: 0, y: 0 },
        size: None,
        module_id: None,
        validator_id: validator.map(|s| s.to_string()),
        gate_id: gate.map(|s| s.to_string()),
        status: None,
        ports: None,
    }
}

fn edge(id: &str, from: &str, to: &str, directed: bool) -> BoardEdge {
    BoardEdge {
        id: id.into(),
        kind: EdgeKind::Trace,
        from: EndpointRef { node_id: from.into(), port_id: None },
        to: EndpointRef { node_id: to.into(), port_id: None },
        directed,
        inline_gate_ids: None,
        points: None,
    }
}

fn strings(v: &[&str]) -> Vec<String> {
    v.iter().map(|s| s.to_string()).collect()
}

/// start -> probe_unit -> gate_unit -> finish, with an AC and a DC spark.
fn env() -> EnvironmentSpec {
    EnvironmentSpec {
        id: "env".into(),
        name: "CF: test".into(),
        language_profile: "python".into(),
        team: TeamConfig {
            sparks: vec![
                TeamSpark { id: "ac1".into(), kind: SparkKind::Ac },
                TeamSpark { id: "dc1".into(), kind: SparkKind::Dc },
            ],
            dc_config_mode: "tier1".into(),
        },
        board: BoardSpec {
            nodes: vec![
                node("start", NodeKind::Chip, None, None),
                node("probe_unit", NodeKind::Probe, Some("v_unit"), None),
                node("gate_unit", NodeKind::Fuse, None, Some("g_unit")),
                node("relay", NodeKind::Relay, None, Some("g_relay")),
                node("finish", NodeKind::Terminal, None, None),
            ],
            edges: vec![
                edge("e1", "start", "probe_unit", true),
                edge("e2", "probe_unit", "gate_unit", true),
                edge("ef", "gate_unit", "finish", true),
                edge("er", "finish", "relay", false),
            ],
        },
        gates: vec![
            GateSpec {
                id: "g_unit".into(),
                kind: "fuse".into(),
                predicate: Predicate::ProbePass { probe_id: "probe_unit".into() },
                prerequisites: None,
            },
            GateSpec { id: "g_relay".into(), kind: "relay".into(), predicate: Predicate::PatchCapsulePresent, prerequisites: None },
        ],
        validators: vec![ValidatorSpec {
            id: "v_unit".into(),
            kind: "test".into(),
            cmd: Some(strings(&["cargo", "test"])),
            steps: None,
        }],
        permissions: PermissionsSpec {
            ac: RolePerms { allow_edit_paths: Some(strings(&["**/*.py"])), deny_edit_paths: None, allow_config_paths: None, deny_commands: None },
            dc: RolePerms { allow_edit_paths: None, deny_edit_paths: None, allow_config_paths: None, deny_commands: None },
        },
        hp: HpSpec {
            max: 100,
            start: 100,
            damage: HpDamage { unit_fail: 5, integration_fail: 10, quality_fail: 3, policy_violation_attempt: 15 },
            heal: HpHeal { unlock_gate_unit: 2, unlock_gate_integration: 5, clean_run_all: 10 },
            anti_thrash: None,
        },
    }
}

fn state() -> RunState {
    RunState::new("run1", "/envs/e.yaml".into(), "/ws".into(), env(), Some(7))
}

fn node_status(st: &RunState, id: &str) -> NodeStatus {
    st.snapshot.nodes.iter().find(|n| n.id == id).unwrap().status.clone().unwrap()
}

fn spark<'a>(st: &'a RunState, id: &str) -> &'a circuitforge::schemas::environment::SparkState {
    st.snapshot.sparks.iter().find(|s| s.id == id).unwrap()
}

fn event(seq: u64, event_type: &str, f: impl FnOnce(&mut EventPayload)) -> RunEvent {
    let mut p = EventPayload::empty();
    f(&mut p);
    RunEvent { seq, event_type: event_type.into(), payload: p }
}

// ---------------------------------------------------------------------------
// Starting a run
// ---------------------------------------------------------------------------

#[test]
fn new_run_idles_probes_locks_gates_and_places_sparks_on_the_first_node() {
    let st = state();
    assert_eq!(st.snapshot.run_id, "run1");
    assert_eq!(node_status(&st, "probe_unit").probe, Some(ProbeStatus::Idle));
    assert_eq!(node_status(&st, "gate_unit").gate, Some(GateStatus::Locked));
    assert_eq!(node_status(&st, "relay").gate, Some(GateStatus::Locked));
    assert!(st.snapshot.nodes[0].status.is_none());
    assert_eq!(st.snapshot.sparks.len(), 2);
    for s in &st.snapshot.sparks {
        assert_eq!(s.hp, 100);
        assert_eq!(s.at_node_id, "start");
        assert!(s.carrying.is_empty());
    }
    assert_eq!(st.snapshot.edges.len(), 4);
    assert!(st.last_edits.is_empty() && st.failure_history.is_empty() && st.inbox.is_empty());
}

#[test]
fn sparks_of_an_empty_board_start_at_start() {
    let mut e = env();
    e.board.nodes.clear();
    let st = RunState::new("r", "p".into(), "w".into(), e, None);
    assert!(st.snapshot.sparks.iter().all(|s| s.at_node_id == "start"));
}

#[test]
fn world_init_run_holds_the_run_under_its_workspace() {
    let mut w = WorldService::new(&"/data/runs".to_string());
    let (ws, snap, seed) = w.init_run("r1", "/e.yaml".into(), env(), None);
    assert_eq!(ws, "/data/runs/r1/workspace");
    assert_eq!(seed, 0);
    assert_eq!(snap.run_id, "r1");
    assert_eq!(w.held_snapshot("r1").unwrap().nodes.len(), 5);
    assert!(w.held_snapshot("r2").is_none());
    assert_eq!(w.workspace_path_for("x"), "/data/runs/x/workspace");
    let (_, _, seed) = w.init_run("r2", "/e.yaml".into(), env(), Some(42));
    assert_eq!(seed, 42);
    w.clear_run("r1");
    assert!(w.held_snapshot("r1").is_none());
    assert!(w.held_snapshot("r2").is_some());
}

// ---------------------------------------------------------------------------
// Actions
// ---------------------------------------------------------------------------

#[test]
fn move_action_moves_the_spark_and_reports_all_sparks() {
    let mut w = WorldService::new(&"/runs".to_string());
    w.init_run("r", "/e.yaml".into(), env(), None);
    let seq = w.take_seq();
    assert_eq!(seq, 1);
    let action = WorldAction::Move { run_id: "r".into(), spark_id: "ac1".into(), to_node_id: "probe_unit".into() };
    let out = w.act(&action, seq).ok().unwrap();
    assert_eq!(out.seq, 1);
    assert_eq!(out.run_id, "r");
    assert!(out.diff.upsert_nodes.is_none());
    let sparks = out.diff.upsert_sparks.unwrap();
    assert_eq!(sparks.len(), 2);
    assert_eq!(sparks[0].at_node_id, "probe_unit");
    assert_eq!(sparks[1].at_node_id, "start");
    assert_eq!(w.next_seq, 2);
}

#[test]
fn energize_action_satisfies_the_object() {
    let mut w = WorldService::new(&"/runs".to_string());
    w.init_run("r", "/e.yaml".into(), env(), None);
    let action = WorldAction::Energize { run_id: "r".into(), spark_id: "dc1".into(), object_id: "gate_unit".into() };
    let out = w.act(&action, 9).ok().unwrap();
    let nodes = out.diff.upsert_nodes.unwrap();
    assert_eq!(nodes.len(), 1);
    assert_eq!(nodes[0].id, "gate_unit");
    let status = nodes[0].status.clone().unwrap();
    assert_eq!(status.satisfied, Some(true));
    assert_eq!(status.gate, Some(GateStatus::Locked));
    assert!(out.diff.upsert_sparks.is_none());
}

#[test]
fn action_on_an_unknown_run_is_not_found() {
    let mut w = WorldService::new(&"/runs".to_string());
    let action = WorldAction::Move { run_id: "nope".into(), spark_id: "ac1".into(), to_node_id: "x".into() };
    match w.act(&action, 1) {
        Err(WorldError::NotFound(m)) => assert_eq!(m, "nope"),
        _ => panic!("expected NotFound"),
    }
    let e = WorldError::NotFound("nope".into());
    assert_eq!(e.to_message(), "Not found: nope");
    let api = ApiError::from_world(e);
    assert_eq!(api.code, "NOT_FOUND");
    assert_eq!(api.message, "nope");
}

#[test]
fn each_world_error_has_its_code_and_display() {
    let cases = vec![
        (WorldError::AclViolation("a".into()), "ACL_VIOLATION", "ACL Violation: a"),
        (WorldError::NotFound("b".into()), "NOT_FOUND", "Not found: b"),
        (WorldError::Internal("c".into()), "INTERNAL", "Internal error: c"),
        (WorldError::InvalidRequest("d".into()), "INVALID", "Invalid request: d"),
        (WorldError::PathTraversal("e".into()), "SECURITY_VIOLATION", "Security: Path Traversal Attempt: e"),
    ];
    for (err, code, display) in cases {
        assert_eq!(err.to_message(), display);
        let api = ApiError::from_world(err);
        assert_eq!(api.code, code);
        assert!(api.detail.is_none());
    }
    let e = ApiError::new("GEN", "boom");
    assert_eq!((e.code.as_str(), e.message.as_str()), ("GEN", "boom"));
}

#[test]
fn policy_violation_costs_hp_but_never_below_zero() {
    let mut w = WorldService::new(&"/runs".to_string());
    w.init_run("r", "/e.yaml".into(), env(), None);
    assert!(w.policy_violation_fits("r", &"ac1".to_string()));
    assert_eq!(w.apply_policy_violation("r", &"ac1".to_string()), Some(-15));
    assert_eq!(w.held_snapshot("r").unwrap().sparks[0].hp, 85);
    for _ in 0..10 {
        w.apply_policy_violation("r", &"ac1".to_string());
    }
    assert_eq!(w.held_snapshot("r").unwrap().sparks[0].hp, 0);
    assert_eq!(w.apply_policy_violation("r", &"ghost".to_string()), None);
    assert_eq!(w.apply_policy_violation("other", &"ac1".to_string()), None);
}

#[test]
fn closing_a_relay_opens_it() {
    let mut st = state();
    st.finish_patch(&"ac1".to_string(), &"patch".to_string());
    let diff = st.close_relay(&"dc1".to_string(), &"relay".to_string()).unwrap();
    assert_eq!(node_status(&st, "relay").gate, Some(GateStatus::Open));
    let nodes = diff.upsert_nodes.unwrap();
    assert_eq!(nodes.len(), 1);
    assert_eq!(diff.upsert_sparks.unwrap().len(), 2);
}

#[test]
fn a_relay_closes_only_for_a_dc_once_its_predicates_hold() {
    let mut st = state();
    let relay = "relay".to_string();
    assert_eq!(st.close_relay(&"ac1".to_string(), &relay).err().unwrap(), "ACL Violation: spark is not DC");
    assert_eq!(st.close_relay(&"x".to_string(), &relay).err().unwrap(), "Not found: x");
    // No patch capsule yet.
    assert_eq!(st.check_close_relay(&"dc1".to_string(), &relay).err().unwrap(), "relay predicates not satisfied");
    assert_eq!(st.close_relay(&"dc1".to_string(), &relay).err().unwrap(), "relay predicates not satisfied");
    assert_eq!(node_status(&st, "relay").gate, Some(GateStatus::Locked));
    st.finish_patch(&"ac1".to_string(), &"patch".to_string());
    assert!(st.check_close_relay(&"dc1".to_string(), &relay).is_ok());

    // A relay that also needs the unit validator's evidence.
    let mut st = state();
    st.env.gates[1].predicate = Predicate::All {
        of: vec![
            Predicate::PatchCapsulePresent,
            Predicate::EvidenceSetPresent { validators: strings(&["v_unit"]) },
        ],
    };
    st.finish_patch(&"ac1".to_string(), &"patch".to_string());
    assert!(st.check_close_relay(&"dc1".to_string(), &relay).is_err());
    let v = st.probe_verdict(&"v_unit".to_string(), &"test".to_string(), &"probe_unit".to_string(), true, 0);
    st.apply_probe_result(&"dc1".to_string(), &"probe_unit".to_string(), &v, &"ev".to_string()).unwrap();
    assert!(st.close_relay(&"dc1".to_string(), &relay).is_ok());
    assert_eq!(node_status(&st, "relay").gate, Some(GateStatus::Open));
}

// ---------------------------------------------------------------------------
// Observation
// ---------------------------------------------------------------------------

#[test]
fn a_spark_sees_two_steps_along_the_edges() {
    let mut st = state();
    let (spark, visible, inbox) = st.observe(&"ac1".to_string()).ok().unwrap();
    assert_eq!(spark.id, "ac1");
    let ids: Vec<&str> = visible.nodes.iter().map(|n| n.id.as_str()).collect();
    assert_eq!(ids, vec!["start", "probe_unit", "gate_unit"]);
    let edge_ids: Vec<&str> = visible.edges.iter().map(|e| e.id.as_str()).collect();
    assert_eq!(edge_ids, vec!["e1", "e2", "ef"]);
    assert!(inbox.is_empty());

    st.apply_move(&"ac1".to_string(), &"finish".to_string());
    let (_, visible, _) = st.observe(&"ac1".to_string()).ok().unwrap();
    let ids: Vec<&str> = visible.nodes.iter().map(|n| n.id.as_str()).collect();
    // Directed edges are seen only forwards; the undirected one both ways.
    assert_eq!(ids, vec!["relay", "finish"]);
}

#[test]
fn observing_an_unknown_spark_or_run_fails() {
    let st = state();
    assert_eq!(st.observe(&"x".to_string()).err().unwrap(), "unknown spark");
    let w = WorldService::new(&"/runs".to_string());
    assert_eq!(w.observe("r", &"ac1".to_string()).err().unwrap(), "unknown run");
}

#[test]
fn signals_reach_their_spark_and_broadcasts_reach_all() {
    let mut st = state();
    st.inbox.push(SignalMsg { from: "dc1".into(), payload: serde_json::Value::Null, ts: 1, to_spark_id: Some("ac1".into()) });
    st.inbox.push(SignalMsg { from: "dc1".into(), payload: serde_json::Value::Null, ts: 2, to_spark_id: Some("dc1".into()) });
    st.inbox.push(SignalMsg { from: "x".into(), payload: serde_json::Value::Null, ts: 3, to_spark_id: None });
    let (_, _, inbox) = st.observe(&"ac1".to_string()).ok().unwrap();
    let ts: Vec<i64> = inbox.iter().map(|m| m.ts).collect();
    assert_eq!(ts, vec![1, 3]);
}

#[test]
fn visibility_is_a_breadth_limited_expansion() {
    let edges = vec![edge("a", "n0", "n1", true), edge("b", "n1", "n2", true), edge("c", "n2", "n3", true), edge("d", "n4", "n0", false)];
    let mut ids = find_visible_node_ids(&edges, &"n0".to_string(), 2);
    ids.sort();
    assert_eq!(ids, strings(&["n0", "n1", "n2", "n4"]));
    let ids = find_visible_node_ids(&edges, &"n0".to_string(), 0);
    assert_eq!(ids, strings(&["n0"]));
}

// ---------------------------------------------------------------------------
// Probes
// ---------------------------------------------------------------------------

#[test]
fn probe_plan_finds_the_validator_commands() {
    let st = state();
    let dc = "dc1".to_string();
    let (cmds, vid, kind, ws) = st.probe_plan(&dc, &"probe_unit".to_string()).ok().unwrap();
    assert_eq!(cmds, vec![strings(&["cargo", "test"])]);
    assert_eq!((vid.as_str(), kind.as_str(), ws.as_str()), ("v_unit", "test", "/ws"));
    assert_eq!(st.probe_plan(&dc, &"nope".to_string()).err().unwrap(), "probe node not found");
    assert_eq!(st.probe_plan(&dc, &"start".to_string()).err().unwrap(), "probe missing validator_id");
}

#[test]
fn only_a_dc_runs_probes() {
    let st = state();
    let probe = "probe_unit".to_string();
    assert_eq!(st.probe_plan(&"ac1".to_string(), &probe).err().unwrap(), "ACL Violation: spark is not DC");
    assert_eq!(st.probe_plan(&"ghost".to_string(), &probe).err().unwrap(), "Not found: ghost");
}

#[test]
fn probe_plan_uses_steps_when_there_is_no_single_command() {
    let mut st = state();
    st.env.validators[0].cmd = None;
    assert_eq!(st.probe_plan(&"dc1".to_string(), &"probe_unit".to_string()).err().unwrap(), "validator has no cmd/steps");
    st.env.validators[0].steps = Some(vec![
        circuitforge::schemas::environment::ValidatorStep { cmd: strings(&["a"]) },
        circuitforge::schemas::environment::ValidatorStep { cmd: strings(&["b", "c"]) },
    ]);
    let (cmds, _, _, _) = st.probe_plan(&"dc1".to_string(), &"probe_unit".to_string()).ok().unwrap();
    assert_eq!(cmds, vec![strings(&["a"]), strings(&["b", "c"])]);
    st.env.validators[0].id = "other".into();
    assert_eq!(st.probe_plan(&"dc1".to_string(), &"probe_unit".to_string()).err().unwrap(), "validator not found");
}

#[test]
fn a_failed_probe_costs_hp_and_records_its_signature() {
    let mut st = state();
    st.mark_probe_running(&"probe_unit".to_string());
    assert_eq!(node_status(&st, "probe_unit").probe, Some(ProbeStatus::Running));
    let v = st.probe_verdict(&"v_unit".to_string(), &"test".to_string(), &"probe_unit".to_string(), false, 1);
    assert_eq!(v.status, "fail");
    assert_eq!(v.failure_signature, Some("v_unit_exit_1".to_string()));
    assert_eq!(v.hp_delta, -5);
    assert!(v.opened_gates.is_empty());
    let diff = st.apply_probe_result(&"dc1".to_string(), &"probe_unit".to_string(), &v, &"ev1".to_string()).unwrap();
    assert_eq!(spark(&st, "dc1").hp, 95);
    assert_eq!(spark(&st, "dc1").carrying, strings(&["ev1"]));
    assert_eq!(st.failure_history, strings(&["v_unit_exit_1"]));
    assert_eq!(node_status(&st, "probe_unit").probe, Some(ProbeStatus::Fail));
    assert_eq!(node_status(&st, "gate_unit").gate, Some(GateStatus::Locked));
    let nodes = diff.upsert_nodes.unwrap();
    assert_eq!(nodes.len(), 1);
    assert_eq!(diff.upsert_edges.unwrap().len(), 4);
    assert_eq!(diff.upsert_sparks.unwrap().len(), 2);
}

#[test]
fn damage_depends_on_the_validator_kind() {
    let st = state();
    let f = |kind: &str| st.probe_verdict(&"v".to_string(), &kind.to_string(), &"probe_unit".to_string(), false, 2).hp_delta;
    assert_eq!(f("unit"), -5);
    assert_eq!(f("test"), -5);
    assert_eq!(f("integration"), -10);
    assert_eq!(f("quality"), -3);
    assert_eq!(f("lint"), -3);
    assert_eq!(f("typecheck"), -3);
    assert_eq!(f("coverage"), -3);
    assert_eq!(f("other"), -5);
}

#[test]
fn repeating_a_failure_signature_costs_extra() {
    let mut st = state();
    st.env.hp.anti_thrash = Some(AntiThrashSpec { repeat_failure_signature_after: 1, extra_damage: 7 });
    let v1 = st.probe_verdict(&"v_unit".to_string(), &"test".to_string(), &"probe_unit".to_string(), false, 3);
    assert_eq!(v1.hp_delta, -5);
    st.apply_probe_result(&"dc1".to_string(), &"probe_unit".to_string(), &v1, &"e1".to_string()).unwrap();
    let v2 = st.probe_verdict(&"v_unit".to_string(), &"test".to_string(), &"probe_unit".to_string(), false, 3);
    assert_eq!(v2.hp_delta, -12);
    let v3 = st.probe_verdict(&"v_unit".to_string(), &"test".to_string(), &"probe_unit".to_string(), false, 4);
    assert_eq!(v3.hp_delta, -5);
    assert_eq!(v3.failure_signature, Some("v_unit_exit_4".to_string()));
    let neg = st.probe_verdict(&"v_unit".to_string(), &"test".to_string(), &"probe_unit".to_string(), false, -1);
    assert_eq!(neg.failure_signature, Some("v_unit_exit_-1".to_string()));
}

#[test]
fn a_passing_probe_opens_its_gates_and_heals_up_to_the_maximum() {
    let mut st = state();
    st.apply_policy_violation(&"dc1".to_string());
    assert_eq!(spark(&st, "dc1").hp, 85);
    let v = st.probe_verdict(&"v_unit".to_string(), &"test".to_string(), &"probe_unit".to_string(), true, 0);
    assert_eq!(v.status, "pass");
    assert_eq!(v.failure_signature, None);
    assert_eq!(v.hp_delta, 0);
    assert_eq!(v.opened_gates, vec![("g_unit".to_string(), "fuse".to_string())]);
    assert!(opened_gate_id_list_contains(&v.opened_gates, &"g_unit".to_string()));
    assert!(!opened_gate_id_list_contains(&v.opened_gates, &"g_relay".to_string()));
    let diff = st.apply_probe_result(&"dc1".to_string(), &"probe_unit".to_string(), &v, &"ev".to_string()).unwrap();
    assert_eq!(spark(&st, "dc1").hp, 87);
    assert_eq!(node_status(&st, "probe_unit").probe, Some(ProbeStatus::Pass));
    assert_eq!(node_status(&st, "gate_unit").gate, Some(GateStatus::Open));
    let mut ids: Vec<String> = diff.upsert_nodes.unwrap().into_iter().map(|n| n.id).collect();
    ids.sort();
    assert_eq!(ids, strings(&["gate_unit", "probe_unit"]));
    assert!(st.failure_history.is_empty());

    // At full HP the heal is capped.
    let mut full = state();
    let v = full.probe_verdict(&"v_unit".to_string(), &"test".to_string(), &"probe_unit".to_string(), true, 0);
    full.apply_probe_result(&"dc1".to_string(), &"probe_unit".to_string(), &v, &"ev".to_string()).unwrap();
    assert_eq!(spark(&full, "dc1").hp, 100);
}

#[test]
fn dedup_keeps_first_position_and_last_value() {
    let mut a = node("a", NodeKind::Chip, None, None);
    let b = node("b", NodeKind::Chip, None, None);
    let mut a2 = node("a", NodeKind::Chip, None, None);
    a.label = "first".into();
    a2.label = "second".into();
    let out = dedup_nodes(vec![a, b, a2]);
    assert_eq!(out.len(), 2);
    assert_eq!(out[0].id, "a");
    assert_eq!(out[0].label, "second");
    assert_eq!(out[1].id, "b");
}

// ---------------------------------------------------------------------------
// Paths and permissions
// ---------------------------------------------------------------------------

#[test]
fn secure_join_refuses_absolute_and_parent_paths() {
    let ws = "/ws".to_string();
    assert_eq!(secure_join(&ws, &"src/a.py".to_string()).ok().unwrap(), "/ws/src/a.py");
    assert_eq!(secure_join(&"/ws/".to_string(), &"a".to_string()).ok().unwrap(), "/ws/a");
    assert_eq!(secure_join(&ws, &"a/..b/c".to_string()).ok().unwrap(), "/ws/a/..b/c");
    match secure_join(&ws, &"/etc/passwd".to_string()) {
        Err(WorldError::PathTraversal(m)) => assert_eq!(m, "Absolute path rejected: /etc/passwd"),
        _ => panic!(),
    }
    match secure_join(&ws, &"a/../../b".to_string()) {
        Err(WorldError::PathTraversal(m)) => assert_eq!(m, "Traversal rejected: a/../../b"),
        _ => panic!(),
    }
    assert!(secure_join(&ws, &"..".to_string()).is_err());
}

#[test]
fn ac_edits_follow_the_allow_list_up_to_the_first_refusal() {
    let st = state();
    let edits = vec![
        FileEdit { path: "src/a.py".into(), contents: "x".into() },
        FileEdit { path: "src/b.rs".into(), contents: "y".into() },
        FileEdit { path: "src/c.py".into(), contents: "z".into() },
    ];
    let plan = st.plan_ac_edits(&"ac1".to_string(), &edits).ok().unwrap();
    assert_eq!(plan.targets, strings(&["/ws/src/a.py"]));
    match plan.refusal {
        Some(WorldError::AclViolation(m)) => assert_eq!(m, "AC cannot edit path src/b.rs"),
        _ => panic!(),
    }
    let plan = st.plan_ac_edits(&"ac1".to_string(), &edits[..1].to_vec()).ok().unwrap();
    assert!(plan.refusal.is_none());
    match st.plan_ac_edits(&"dc1".to_string(), &edits) {
        Err(WorldError::AclViolation(m)) => assert_eq!(m, "spark is not AC"),
        _ => panic!(),
    }
    match st.plan_ac_edits(&"zz".to_string(), &edits) {
        Err(WorldError::NotFound(m)) => assert_eq!(m, "zz"),
        _ => panic!(),
    }
    let traversal = vec![FileEdit { path: "../x.py".into(), contents: "".into() }];
    match st.plan_ac_edits(&"ac1".to_string(), &traversal).ok().unwrap().refusal {
        Some(WorldError::PathTraversal(m)) => assert_eq!(m, "Traversal rejected: ../x.py"),
        _ => panic!(),
    }
}

#[test]
fn dc_config_edits_need_an_allow_list() {
    let mut st = state();
    let edits = vec![FileEdit { path: "config.yaml".into(), contents: "a: 1".into() }];
    match st.plan_dc_config_edits(&"dc1".to_string(), &edits) {
        Err(WorldError::AclViolation(m)) => assert_eq!(m, "dc_edit_config not enabled"),
        _ => panic!(),
    }
    match st.plan_dc_config_edits(&"ac1".to_string(), &edits) {
        Err(WorldError::AclViolation(m)) => assert_eq!(m, "spark is not DC"),
        _ => panic!(),
    }
    st.env.permissions.dc.allow_config_paths = Some(strings(&["config.yaml"]));
    let plan = st.plan_dc_config_edits(&"dc1".to_string(), &edits).ok().unwrap();
    assert_eq!(plan.targets, strings(&["/ws/config.yaml"]));
    assert!(plan.refusal.is_none());
    let other = vec![FileEdit { path: "settings.json".into(), contents: "{}".into() }];
    match st.plan_dc_config_edits(&"dc1".to_string(), &other).ok().unwrap().refusal {
        Some(WorldError::AclViolation(m)) => assert_eq!(m, "DC cannot edit config path settings.json"),
        _ => panic!(),
    }
}

#[test]
fn a_missing_allow_list_admits_nothing() {
    let set = globset_from_opt_secure(None).ok().unwrap();
    assert!(!set.is_match("a.py"));
    let list = strings(&["**/*.py"]);
    let set = globset_from_opt_secure(Some(&list)).ok().unwrap();
    assert!(set.is_match("src/a.py"));
    let bad = strings(&["a[b"]);
    assert!(globset_from_opt_secure(Some(&bad)).is_err());
}

#[test]
fn roles_are_checked() {
    let st = state();
    assert!(st.assert_ac(&"ac1".to_string()).is_ok());
    assert!(st.assert_dc(&"dc1".to_string()).is_ok());
    match st.assert_dc(&"ac1".to_string()) {
        Err(WorldError::AclViolation(m)) => assert_eq!(m, "spark is not DC"),
        _ => panic!(),
    }
}

// ---------------------------------------------------------------------------
// Patches
// ---------------------------------------------------------------------------

#[test]
fn packaging_needs_staged_edits_inside_the_workspace() {
    let mut st = state();
    let ac = "ac1".to_string();
    assert_eq!(st.begin_patch(&ac).err().unwrap(), "no edits staged; nothing to patch");
    st.record_edit("src/a.py".into());
    st.record_edit("src/b.py".into());
    let (touched, abs) = st.begin_patch(&ac).ok().unwrap();
    assert_eq!(touched, strings(&["src/a.py", "src/b.py"]));
    assert_eq!(abs, strings(&["/ws/src/a.py", "/ws/src/b.py"]));
    st.finish_patch(&ac, &"patch1".to_string());
    assert!(st.last_edits.is_empty());
    assert_eq!(spark(&st, "ac1").carrying, strings(&["patch1"]));
    // Handed off to the DC.
    assert_eq!(spark(&st, "dc1").carrying, strings(&["patch1"]));
    assert_eq!(st.patches, strings(&["patch1"]));
    st.record_edit("/etc/x".into());
    assert_eq!(st.begin_patch(&ac).err().unwrap(), "Security: path traversal");
}

#[test]
fn only_an_ac_creates_patches() {
    let mut st = state();
    st.record_edit("src/a.py".into());
    assert_eq!(st.begin_patch(&"dc1".to_string()).err().unwrap(), "ACL Violation: spark is not AC");
    assert_eq!(st.begin_patch(&"ghost".to_string()).err().unwrap(), "Not found: ghost");
    assert_eq!(st.last_edits, strings(&["src/a.py"]));
}

#[test]
fn only_a_dc_carrying_the_patch_may_apply_it() {
    let mut st = state();
    assert_eq!(st.check_apply_patch(&"dc1".to_string(), &"p".to_string()).err().unwrap(), "DC not carrying patch_id");
    assert_eq!(st.check_apply_patch(&"ac1".to_string(), &"p".to_string()).err().unwrap(), "ACL Violation: spark is not DC");
    assert_eq!(st.check_apply_patch(&"x".to_string(), &"p".to_string()).err().unwrap(), "Not found: x");
    // The AC's patch is handed off to the DC, which may then apply it.
    st.finish_patch(&"ac1".to_string(), &"p".to_string());
    assert!(st.check_apply_patch(&"dc1".to_string(), &"p".to_string()).is_ok());
}

// ---------------------------------------------------------------------------
// Replay
// ---------------------------------------------------------------------------

#[test]
fn replaying_the_log_rebuilds_the_live_board() {
    // Live.
    let mut live = state();
    live.apply_move(&"ac1".to_string(), &"probe_unit".to_string());
    live.apply_energize(&"gate_unit".to_string());
    let r = live.apply_policy_violation(&"ac1".to_string());
    live.finish_patch(&"ac1".to_string(), &"item".to_string());
    live.close_relay(&"dc1".to_string(), &"relay".to_string()).unwrap();

    // Logged.
    let events = vec![
        event(0, "RunCreated", |_| {}),
        event(1, "SparkMoved", |p| {
            p.spark_id = Some("ac1".into());
            p.to_node_id = Some("probe_unit".into());
        }),
        event(2, "ObjectEnergized", |p| p.object_id = Some("gate_unit".into())),
        event(3, "PolicyViolation", |p| {
            p.spark_id = Some("ac1".into());
            p.hp_delta = r.map(|d| d as i64);
        }),
        event(4, "PatchCreated", |p| {
            p.spark_id = Some("ac1".into());
            p.item_id = Some("item".into());
        }),
        event(5, "RelayClosed", |p| p.relay_id = Some("relay".into())),
    ];
    let (restored, max) = RunState::restore("run1", "/envs/e.yaml".into(), "/ws".into(), env(), Some(7), &events).unwrap();
    assert_eq!(max, 5);
    assert_eq!(restored.snapshot, live.snapshot);
    assert_eq!(restored.failure_history, live.failure_history);
    assert_eq!(restored.patches, live.patches);
}

#[test]
fn replaying_probe_results_rebuilds_heals_clamps_evidence_and_signatures() {
    // Live: a violation, a failing run, then a passing run that opens the fuse.
    let mut live = state();
    let dc = "dc1".to_string();
    let probe = "probe_unit".to_string();
    let r = live.apply_policy_violation(&dc);
    let fail = live.probe_verdict(&"v_unit".to_string(), &"test".to_string(), &probe, false, 2);
    live.apply_probe_result(&dc, &probe, &fail, &"ev1".to_string()).unwrap();
    let pass = live.probe_verdict(&"v_unit".to_string(), &"test".to_string(), &probe, true, 0);
    live.apply_probe_result(&dc, &probe, &pass, &"ev2".to_string()).unwrap();
    assert_eq!(spark(&live, "dc1").hp, 82);
    assert_eq!(spark(&live, "dc1").carrying, strings(&["ev1", "ev2"]));

    let logged = |seq: u64, v: &circuitforge::engine::world::ProbeVerdict, ev: &str| {
        let v_status = v.status.clone();
        let v_sig = v.failure_signature.clone();
        let v_ids: Vec<String> = v.opened_gates.iter().map(|(id, _)| id.clone()).collect();
        let v_delta = v.hp_delta as i64;
        let ev = ev.to_string();
        event(seq, "ProbeFinished", move |p| {
            p.probe_id = Some("probe_unit".into());
            p.status = Some(v_status);
            p.spark_id = Some("dc1".into());
            p.hp_delta = Some(v_delta);
            p.evidence_item_id = Some(ev);
            p.opened_gate_ids = Some(v_ids);
            p.failure_signature = v_sig;
        })
    };
    let events = vec![
        event(1, "PolicyViolation", |p| {
            p.spark_id = Some("dc1".into());
            p.hp_delta = r.map(|d| d as i64);
        }),
        logged(2, &fail, "ev1"),
        logged(3, &pass, "ev2"),
    ];
    let (restored, _) = RunState::restore("run1", "/envs/e.yaml".into(), "/ws".into(), env(), Some(7), &events).unwrap();
    assert_eq!(restored.snapshot, live.snapshot);
    assert_eq!(restored.failure_history, live.failure_history);
}

#[test]
fn an_all_gate_opens_once_every_sub_predicate_holds() {
    let mut st = state();
    st.snapshot.nodes.push(node("probe_q", NodeKind::Probe, Some("v_unit"), None));
    st.env.gates[0].predicate = Predicate::All {
        of: vec![
            Predicate::ProbePass { probe_id: "probe_q".into() },
            Predicate::ProbePass { probe_id: "probe_unit".into() },
        ],
    };
    let dc = "dc1".to_string();
    let v = st.probe_verdict(&"v_unit".to_string(), &"test".to_string(), &"probe_unit".to_string(), true, 0);
    assert!(v.opened_gates.is_empty());
    st.apply_probe_result(&dc, &"probe_unit".to_string(), &v, &"e1".to_string()).unwrap();
    assert_eq!(node_status(&st, "gate_unit").gate, Some(GateStatus::Locked));
    let v = st.probe_verdict(&"v_unit".to_string(), &"test".to_string(), &"probe_q".to_string(), true, 0);
    assert_eq!(v.opened_gates, vec![("g_unit".to_string(), "fuse".to_string())]);
    st.apply_probe_result(&dc, &"probe_q".to_string(), &v, &"e2".to_string()).unwrap();
    assert_eq!(node_status(&st, "gate_unit").gate, Some(GateStatus::Open));
}

#[test]
fn replay_applies_probe_results_and_skips_incomplete_events() {
    let events = vec![
        event(3, "ProbeFinished", |p| {
            p.probe_id = Some("probe_unit".into());
            p.status = Some("fail".into());
            p.failure_signature = Some("v_unit_exit_1".into());
            p.spark_id = Some("dc1".into());
            p.hp_delta = Some(-5);
        }),
        event(4, "ProbeFinished", |p| {
            p.probe_id = Some("probe_unit".into());
            p.status = Some("pass".into());
            p.opened_gate_ids = Some(strings(&["g_unit"]));
        }),
        event(5, "SparkMoved", |p| p.spark_id = Some("ac1".into())),
        event(2, "PatchCreated", |p| {
            p.spark_id = Some("ac1".into());
            p.item_id = Some("i".into());
        }),
        event(6, "PatchCreated", |p| {
            p.spark_id = Some("ac1".into());
            p.item_id = Some("i".into());
        }),
    ];
    let (st, max) = RunState::restore("r", "e".into(), "w".into(), env(), None, &events).unwrap();
    assert_eq!(max, 6);
    assert_eq!(max_event_seq(&events), 6);
    assert_eq!(st.failure_history, strings(&["v_unit_exit_1"]));
    assert_eq!(spark(&st, "dc1").hp, 95);
    assert_eq!(spark(&st, "ac1").at_node_id, "start");
    assert_eq!(spark(&st, "ac1").carrying, strings(&["i"]));
    assert_eq!(spark(&st, "dc1").carrying, strings(&["i"]));
    assert_eq!(st.patches, strings(&["i", "i"]));
    assert_eq!(node_status(&st, "probe_unit").probe, Some(ProbeStatus::Pass));
    assert_eq!(node_status(&st, "gate_unit").gate, Some(GateStatus::Open));
}

#[test]
fn replay_refuses_an_hp_change_beyond_i32() {
    let events = vec![event(0, "PolicyViolation", |p| {
        p.spark_id = Some("ac1".into());
        p.hp_delta = Some(i32::MAX as i64);
    })];
    assert!(RunState::restore("r", "e".into(), "w".into(), env(), None, &events).is_none());
    let mut w = WorldService::new(&"/runs".to_string());
    let info = RunInfo { env_spec_path: "e".into(), workspace_path: "w".into(), seed: None };
    assert!(w.load_run("r", info, env(), &events).is_none());
    assert!(w.held_snapshot("r").is_none());
}

#[test]
fn loading_a_run_continues_numbering_after_its_log() {
    let mut w = WorldService::new(&"/runs".to_string());
    let events = vec![
        event(0, "RunCreated", |_| {}),
        event(7, "SparkMoved", |p| {
            p.spark_id = Some("dc1".into());
            p.to_node_id = Some("finish".into());
        }),
    ];
    let info = RunInfo { env_spec_path: "e".into(), workspace_path: "/elsewhere".into(), seed: Some(3) };
    let snap = w.load_run("r", info, env(), &events).unwrap();
    assert_eq!(w.next_seq, 8);
    assert_eq!(snap.sparks[1].at_node_id, "finish");
    let i = w.run_index("r").unwrap();
    assert_eq!(w.runs[i].1.workspace_path, "/elsewhere");
    assert_eq!(w.runs[i].1.seed, Some(3));
}

#[test]
fn a_capsule_carries_each_touched_file_with_its_contents() {
    let touched = strings(&["src/a.py", "src/b.py"]);
    let c = patch_capsule("fix", &touched, &strings(&["A", "B"]));
    assert_eq!(c.message, Some("fix".to_string()));
    assert_eq!(c.touched_paths, Some(touched.clone()));
    let files = c.files.clone().unwrap();
    assert_eq!(files[1], CapsuleFile { path: Some("src/b.py".into()), contents: Some("B".into()) });
    assert_eq!(capsule_touched_paths(&c), touched);
    let plan = plan_patch_writes(&"/ws".to_string(), &c).ok().unwrap();
    assert_eq!(plan.writes, vec![("/ws/src/a.py".to_string(), "A".to_string()), ("/ws/src/b.py".to_string(), "B".to_string())]);
    assert!(plan.refusal.is_none());
}

#[test]
fn applying_a_capsule_stops_at_the_first_bad_entry() {
    let ws = "/ws".to_string();
    let file = |p: Option<&str>, c: Option<&str>| CapsuleFile { path: p.map(String::from), contents: c.map(String::from) };
    let capsule = |files: Vec<CapsuleFile>| PatchCapsule { message: None, files: Some(files), touched_paths: None };
    let c = capsule(vec![file(Some("a"), Some("1")), file(None, Some("2")), file(Some("c"), Some("3"))]);
    let plan = plan_patch_writes(&ws, &c).ok().unwrap();
    assert_eq!(plan.writes.len(), 1);
    assert_eq!(plan.refusal, Some("file entry missing path".to_string()));
    let plan = plan_patch_writes(&ws, &capsule(vec![file(Some("a"), None)])).ok().unwrap();
    assert_eq!(plan.refusal, Some("file entry missing contents".to_string()));
    let plan = plan_patch_writes(&ws, &capsule(vec![file(Some("../x"), Some("1"))])).ok().unwrap();
    assert_eq!(plan.refusal, Some("Security: path traversal in patch".to_string()));
    let none = PatchCapsule { message: None, files: None, touched_paths: None };
    assert_eq!(plan_patch_writes(&ws, &none).err().unwrap(), "patch has no files array");
    assert!(capsule_touched_paths(&none).is_empty());
}

#[test]
fn successive_actions_get_increasing_numbers() {
    let mut w = WorldService::new(&"/runs".to_string());
    w.init_run("r", "/e.yaml".into(), env(), None);
    let s1 = w.take_seq();
    let action = WorldAction::Energize { run_id: "r".into(), spark_id: "dc1".into(), object_id: "gate_unit".into() };
    let out = w.act(&action, s1).ok().unwrap();
    assert!(out.diff.upsert_edges.is_none());
    assert!(out.diff.delete_node_ids.is_none() && out.diff.delete_edge_ids.is_none());
    let s2 = w.take_seq();
    assert!(s1 < s2);
}

#[test]
fn lint_typecheck_and_coverage_gates_open_on_a_passing_quality_validator() {
    let mut st = state();
    st.env.validators[0].kind = "quality".into();
    st.env.gates[0].predicate = Predicate::All { of: vec![Predicate::LintPass, Predicate::CoverageAtLeast { pct: 90 }] };
    st.env.gates[1].predicate = Predicate::TypecheckPass;
    let dc = "dc1".to_string();
    assert_eq!(st.check_close_relay(&dc, &"relay".to_string()).err().unwrap(), "relay predicates not satisfied");
    let v = st.probe_verdict(&"v_unit".to_string(), &"quality".to_string(), &"probe_unit".to_string(), true, 0);
    // Both gates name the quality validator's kind, so the pass opens both.
    assert_eq!(v.opened_gates, vec![("g_unit".to_string(), "fuse".to_string()), ("g_relay".to_string(), "relay".to_string())]);
    st.apply_probe_result(&dc, &"probe_unit".to_string(), &v, &"ev".to_string()).unwrap();
    assert_eq!(node_status(&st, "gate_unit").gate, Some(GateStatus::Open));
    assert!(st.close_relay(&dc, &"relay".to_string()).is_ok());

    // A checklist needs a passing checklist validator; a test validator is no evidence.
    let mut st = state();
    st.env.gates[1].predicate = Predicate::ChecklistPresent { rubric_at_least: 3 };
    let v = st.probe_verdict(&"v_unit".to_string(), &"test".to_string(), &"probe_unit".to_string(), true, 0);
    st.apply_probe_result(&dc, &"probe_unit".to_string(), &v, &"ev".to_string()).unwrap();
    assert!(st.check_close_relay(&dc, &"relay".to_string()).is_err());
}

#[test]
fn a_passing_report_records_no_failure_signature_on_replay() {
    let events = vec![event(1, "ProbeFinished", |p| {
        p.probe_id = Some("probe_unit".into());
        p.status = Some("pass".into());
        p.failure_signature = Some("stray".into());
    })];
    let (st, _) = RunState::restore("r", "e".into(), "w".into(), env(), None, &events).unwrap();
    assert!(st.failure_history.is_empty());
    assert_eq!(st.snapshot.edges.len(), 4);
}
