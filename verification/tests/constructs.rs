use circuitforge::engine::constructs::{
    any_report, last_mutation, latest_report_index, mutates_root, path_is_under, probe_id_from_ref,
    reports_probe, was_ever_certified,
    EvaluationEngine,
};
use circuitforge::schemas::construct::{
    Acceptance, ConstructKind, ConstructSpec, ConstructStatus, Interface, Invariant,
    InvariantSeverity, PassPolicy, PassPolicyMode,
};
use circuitforge::storage::event_log::{EventPayload, RunEvent};

fn spec(id: &str, name: &str, description: &str, root: &str, probes: &[&str]) -> ConstructSpec {
    ConstructSpec {
        id: id.into(),
        kind: ConstructKind::Cli,
        name: name.into(),
        description: description.into(),
        root: root.into(),
        interface: Interface { exports: vec![] },
        invariants: vec![],
        acceptance: Acceptance {
            required_probes: probes.iter().map(|p| p.to_string()).collect(),
            pass_policy: PassPolicy { mode: PassPolicyMode::All },
        },
        dependencies: None,
        metadata: None,
    }
}

fn test_spec() -> ConstructSpec {
    spec("c1", "Test", "Desc", "src", &["probe:p1"])
}

/// A log that numbers its events from 0, as the event store does.
struct Log {
    events: Vec<RunEvent>,
}

impl Log {
    fn new() -> Log {
        Log { events: vec![] }
    }

    fn append(&mut self, event_type: &str, payload: EventPayload) {
        let seq = self.events.len() as u64;
        self.events.push(RunEvent { seq, event_type: event_type.into(), payload });
    }

    fn touched(&mut self, event_type: &str, paths: &[&str]) {
        let mut p = EventPayload::empty();
        p.touched_paths = Some(paths.iter().map(|s| s.to_string()).collect());
        self.append(event_type, p);
    }

    fn patch_applied(&mut self, paths: &[&str]) {
        self.touched("PatchApplied", paths);
    }

    fn probe_finished(&mut self, probe_id: &str, status: &str) {
        let mut p = EventPayload::empty();
        p.probe_id = Some(probe_id.into());
        p.status = Some(status.into());
        self.append("ProbeFinished", p);
    }
}

#[test]
fn test_evaluate_draft() {
    let spec = test_spec();
    let log = Log::new();
    let res = EvaluationEngine::evaluate(&spec, &log.events);
    assert_eq!(res.status, ConstructStatus::Draft);
}

#[test]
fn test_evaluate_certified() {
    let spec = test_spec();
    let mut log = Log::new();
    log.patch_applied(&["src/main.py"]);
    log.probe_finished("p1", "pass");
    let res = EvaluationEngine::evaluate(&spec, &log.events);
    assert_eq!(res.status, ConstructStatus::Certified);
}

#[test]
fn test_evaluate_active_due_to_stale_probe() {
    let spec = test_spec();
    let mut log = Log::new();
    log.probe_finished("p1", "pass");
    log.patch_applied(&["src/main.py"]);
    let res = EvaluationEngine::evaluate(&spec, &log.events);
    assert_eq!(res.status, ConstructStatus::Active);
    assert_eq!(res.missing_probes, vec!["p1".to_string()]);
}

#[test]
fn test_evaluate_mutation_invalidates_certification() {
    let spec = test_spec();
    let mut log = Log::new();
    log.patch_applied(&["src/main.py"]);
    log.probe_finished("p1", "pass");
    let res = EvaluationEngine::evaluate(&spec, &log.events);
    assert_eq!(res.status, ConstructStatus::Certified);

    log.patch_applied(&["src/logic.py"]);
    let res2 = EvaluationEngine::evaluate(&spec, &log.events);
    assert_eq!(res2.status, ConstructStatus::Active);
    assert_eq!(res2.missing_probes, vec!["p1".to_string()]);

    log.probe_finished("p1", "pass");
    let res3 = EvaluationEngine::evaluate(&spec, &log.events);
    assert_eq!(res3.status, ConstructStatus::Certified);
}

#[test]
fn test_evaluate_mutation_outside_root_does_not_invalidate() {
    let spec = test_spec();
    let mut log = Log::new();
    log.patch_applied(&["src/main.py"]);
    log.probe_finished("p1", "pass");
    let res = EvaluationEngine::evaluate(&spec, &log.events);
    assert_eq!(res.status, ConstructStatus::Certified);

    log.patch_applied(&["docs/README.md"]);
    let res2 = EvaluationEngine::evaluate(&spec, &log.events);
    assert_eq!(res2.status, ConstructStatus::Certified);
}

#[test]
fn test_staged_events_do_not_invalidate() {
    let spec = test_spec();
    let mut log = Log::new();
    log.patch_applied(&["src/main.py"]);
    log.probe_finished("p1", "pass");
    let res = EvaluationEngine::evaluate(&spec, &log.events);
    assert_eq!(res.status, ConstructStatus::Certified);

    log.touched("FilesEdited", &["src/main.py"]);
    log.touched("PatchCreated", &["src/main.py"]);
    let res2 = EvaluationEngine::evaluate(&spec, &log.events);
    assert_eq!(res2.status, ConstructStatus::Certified);
}

#[test]
fn test_certify_mintclip() {
    let spec = spec(
        "mintclip_construct_v1",
        "MintClip Clipboard Manager",
        "A Linux Mint clipboard manager with persistent history and CLI interface",
        ".",
        &["probe:unit_tests", "probe:cli_integration", "probe:lint", "probe:format"],
    );
    let mut log = Log::new();
    log.patch_applied(&[
        "src/mintclip/clipboard.py",
        "src/mintclip/cli.py",
        "tests/test_clipboard.py",
        "tests/test_cli_integration.py",
    ]);
    for probe_id in &["unit_tests", "cli_integration", "lint", "format"] {
        log.probe_finished(probe_id, "pass");
    }
    let res = EvaluationEngine::evaluate(&spec, &log.events);
    assert_eq!(res.status, ConstructStatus::Certified);
}

// ---------------------------------------------------------------------------
// Further behaviour of the evaluation
// ---------------------------------------------------------------------------

#[test]
fn failing_probe_after_mutation_is_reported_and_keeps_the_construct_active() {
    let spec = test_spec();
    let mut log = Log::new();
    log.patch_applied(&["src/main.py"]);
    log.probe_finished("p1", "fail");
    let res = EvaluationEngine::evaluate(&spec, &log.events);
    assert_eq!(res.status, ConstructStatus::Active);
    assert_eq!(res.failing_probes, vec!["p1".to_string()]);
    assert!(res.missing_probes.is_empty());
}

#[test]
fn latest_report_of_a_probe_decides() {
    let spec = test_spec();
    let mut log = Log::new();
    log.patch_applied(&["src/main.py"]);
    log.probe_finished("p1", "fail");
    log.probe_finished("p1", "pass");
    let res = EvaluationEngine::evaluate(&spec, &log.events);
    assert_eq!(res.status, ConstructStatus::Certified);
    assert!(res.failing_probes.is_empty());
}

#[test]
fn probe_report_without_status_is_ignored() {
    let spec = test_spec();
    let mut log = Log::new();
    log.touched("FilesEdited", &["src/main.py"]);
    log.patch_applied(&["src/main.py"]);
    let mut p = EventPayload::empty();
    p.probe_id = Some("p1".into());
    log.append("ProbeFinished", p);
    let res = EvaluationEngine::evaluate(&spec, &log.events);
    assert_eq!(res.status, ConstructStatus::Active);
    assert_eq!(res.missing_probes, vec!["p1".to_string()]);
}

#[test]
fn first_build_action_makes_a_draft_active() {
    // The log numbers events from 0; a patch at 0 is a build action all the same.
    let spec = test_spec();
    let mut log = Log::new();
    log.patch_applied(&["src/main.py"]);
    let res = EvaluationEngine::evaluate(&spec, &log.events);
    assert_eq!(res.status, ConstructStatus::Active);
    assert_eq!(res.missing_probes, vec!["p1".to_string()]);
}

#[test]
fn failure_after_certification_regresses() {
    let spec = test_spec();
    let mut log = Log::new();
    log.patch_applied(&["src/main.py"]);
    log.probe_finished("p1", "pass");
    assert_eq!(EvaluationEngine::evaluate(&spec, &log.events).status, ConstructStatus::Certified);
    log.probe_finished("p1", "fail");
    let res = EvaluationEngine::evaluate(&spec, &log.events);
    assert_eq!(res.status, ConstructStatus::Regressed);
    assert_eq!(res.failing_probes, vec!["p1".to_string()]);
    assert!(res.missing_probes.is_empty());
    // Passing again certifies it again.
    log.probe_finished("p1", "pass");
    assert_eq!(EvaluationEngine::evaluate(&spec, &log.events).status, ConstructStatus::Certified);
}

#[test]
fn config_edit_under_the_root_invalidates_certification() {
    let spec = test_spec();
    let mut log = Log::new();
    log.patch_applied(&["src/main.py"]);
    log.probe_finished("p1", "pass");
    log.touched("ConfigEdited", &["src/settings.json"]);
    let res = EvaluationEngine::evaluate(&spec, &log.events);
    assert_eq!(res.status, ConstructStatus::Active);
    assert_eq!(res.missing_probes, vec!["p1".to_string()]);
}

#[test]
fn root_dot_covers_the_whole_workspace() {
    let spec = spec("c", "n", "d", ".", &["probe:p1"]);
    let mut log = Log::new();
    log.patch_applied(&["src/a.py"]);
    log.probe_finished("p1", "pass");
    log.patch_applied(&["src/b.py"]);
    let res = EvaluationEngine::evaluate(&spec, &log.events);
    assert_eq!(res.status, ConstructStatus::Active);
    assert_eq!(res.missing_probes, vec!["p1".to_string()]);
}

#[test]
fn a_sibling_with_the_root_as_prefix_is_not_under_it() {
    let spec = test_spec();
    let mut log = Log::new();
    log.patch_applied(&["src/main.py"]);
    log.probe_finished("p1", "pass");
    log.patch_applied(&["src2/x.py"]);
    assert_eq!(EvaluationEngine::evaluate(&spec, &log.events).status, ConstructStatus::Certified);
    log.patch_applied(&["src"]);
    assert_eq!(EvaluationEngine::evaluate(&spec, &log.events).status, ConstructStatus::Active);
}

#[test]
fn report_of_an_unrequired_probe_makes_a_draft_active() {
    let spec = test_spec();
    let mut log = Log::new();
    log.probe_finished("other", "pass");
    let res = EvaluationEngine::evaluate(&spec, &log.events);
    assert_eq!(res.status, ConstructStatus::Active);
    assert_eq!(res.missing_probes, vec!["p1".to_string()]);
}

#[test]
fn invariants_are_satisfied_by_fresh_passes_only() {
    let mut spec = test_spec();
    spec.invariants = vec![
        Invariant { id: "i1".into(), statement: "s".into(), severity: InvariantSeverity::Must, probe_ref: "probe:p1".into() },
        Invariant { id: "i2".into(), statement: "s".into(), severity: InvariantSeverity::Should, probe_ref: "p2".into() },
        Invariant { id: "i3".into(), statement: "s".into(), severity: InvariantSeverity::Must, probe_ref: "probe:p3".into() },
    ];
    let mut log = Log::new();
    log.probe_finished("p3", "pass");
    log.patch_applied(&["src/a.rs"]);
    log.probe_finished("p1", "pass");
    log.probe_finished("p2", "pass");
    let res = EvaluationEngine::evaluate(&spec, &log.events);
    assert_eq!(res.satisfied_invariants, vec!["i1".to_string(), "i2".to_string()]);
}

#[test]
fn certified_exactly_when_every_required_probe_passed_after_the_last_mutation() {
    let spec = spec("c", "n", "d", "lib", &["probe:a", "probe:b"]);
    let mut log = Log::new();
    log.patch_applied(&["lib/x.rs"]);
    log.probe_finished("a", "pass");
    assert_eq!(EvaluationEngine::evaluate(&spec, &log.events).status, ConstructStatus::Active);
    log.probe_finished("b", "pass");
    assert_eq!(EvaluationEngine::evaluate(&spec, &log.events).status, ConstructStatus::Certified);
    log.patch_applied(&["lib/y.rs"]);
    let res = EvaluationEngine::evaluate(&spec, &log.events);
    assert_eq!(res.status, ConstructStatus::Active);
    assert_eq!(res.missing_probes, vec!["a".to_string(), "b".to_string()]);
}

#[test]
fn probe_references_lose_their_prefix() {
    assert_eq!(probe_id_from_ref(&"probe:unit".to_string()), "unit");
    assert_eq!(probe_id_from_ref(&"unit".to_string()), "unit");
    assert_eq!(probe_id_from_ref(&"probe:".to_string()), "");
}

#[test]
fn mutation_detection_looks_at_build_actions_under_the_root() {
    let root = "src".to_string();
    let mut log = Log::new();
    log.patch_applied(&["docs/a.md", "src/b.rs"]);
    log.patch_applied(&["docs/c.md"]);
    log.touched("FilesEdited", &["src/d.rs"]);
    log.touched("PatchCreated", &["src/d.rs"]);
    assert!(mutates_root(&log.events[0], &root));
    assert!(!mutates_root(&log.events[1], &root));
    assert!(!mutates_root(&log.events[2], &root));
    assert!(!mutates_root(&log.events[3], &root));
    assert_eq!(last_mutation(&log.events, &root, 0), None);
    assert_eq!(last_mutation(&log.events, &root, 4), Some(0));
    log.patch_applied(&["srcfoo/x"]);
    assert!(!mutates_root(&log.events[4], &root));
    log.touched("ConfigEdited", &["src/cfg.toml"]);
    assert!(mutates_root(&log.events[5], &root));
    assert_eq!(last_mutation(&log.events, &root, 6), Some(5));
    assert_eq!(last_mutation(&log.events, &root, 5), Some(0));
    assert!(path_is_under("src/a/b", "src"));
    assert!(path_is_under("src", "src"));
    assert!(!path_is_under("src2/a", "src"));
    assert!(path_is_under("anything", "."));
}

#[test]
fn probe_reports_are_found_latest_first() {
    let mut log = Log::new();
    assert!(!any_report(&log.events));
    log.probe_finished("p", "fail");
    log.patch_applied(&["src/x"]);
    log.probe_finished("p", "pass");
    assert!(reports_probe(&log.events[0]));
    assert!(!reports_probe(&log.events[1]));
    assert!(any_report(&log.events));
    assert_eq!(latest_report_index(&log.events, &"p".to_string(), 3), Some(2));
    assert_eq!(latest_report_index(&log.events, &"p".to_string(), 2), Some(0));
    assert_eq!(latest_report_index(&log.events, &"q".to_string(), 3), None);
}

#[test]
fn certification_history_is_read_from_log_prefixes() {
    let spec = test_spec();
    let mut log = Log::new();
    log.patch_applied(&["src/main.py"]);
    log.probe_finished("p1", "fail");
    assert!(!was_ever_certified(&spec, &log.events));
    log.probe_finished("p1", "pass");
    assert!(was_ever_certified(&spec, &log.events));
}
