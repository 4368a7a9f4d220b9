use circuitforge::generator::scaffold::{
    default_team, environment_for, generated_board, quality_command, safe_language,
    starter_files, template_dir_name, test_command, GeneratedTeam, ProblemSpec, ScaffoldService,
    COORD_0, COORD_100, COORD_200, COORD_400, COORD_600, COORD_MINUS_100,
};
use circuitforge::ipc::commands::{CompileProblemReq, SparkSpec, TeamSpec};
use circuitforge::schemas::environment::{NodeKind, Predicate, SparkKind};

fn strings(v: &[&str]) -> Vec<String> {
    v.iter().map(|s| s.to_string()).collect()
}

#[test]
fn coordinates_are_the_bit_patterns_of_their_values() {
    assert_eq!(COORD_0, 0.0f32.to_bits());
    assert_eq!(COORD_100, 100.0f32.to_bits());
    assert_eq!(COORD_MINUS_100, (-100.0f32).to_bits());
    assert_eq!(COORD_200, 200.0f32.to_bits());
    assert_eq!(COORD_400, 400.0f32.to_bits());
    assert_eq!(COORD_600, 600.0f32.to_bits());
}

#[test]
fn language_names_are_reduced_to_safe_characters() {
    assert_eq!(safe_language("python"), "python");
    assert_eq!(safe_language("../../etc"), "etc");
    assert_eq!(safe_language("c++"), "c");
    assert_eq!(safe_language("Rust_2021"), "Rust_2021");
    assert_eq!(safe_language("héllo wörld"), "hllowrld");
    assert_eq!(safe_language("../"), "unknown");
    assert_eq!(safe_language(""), "unknown");
    assert_eq!(template_dir_name("python"), "python_cli_basic");
    assert_eq!(template_dir_name("/"), "unknown_cli_basic");
}

#[test]
fn starter_files_per_language() {
    let py = starter_files("python");
    let names: Vec<&str> = py.iter().map(|(n, _)| n.as_str()).collect();
    assert_eq!(names, vec!["main.py", "test_main.py", "requirements-dev.txt"]);
    assert_eq!(py[2].1, "pytest>=7.0.0\nflake8>=6.0.0\n");
    let rs = starter_files("rust");
    assert_eq!(rs[0].0, "Cargo.toml");
    assert!(rs[0].1.starts_with("[package]\nname = \"starter\""));
    assert_eq!(rs[1].0, "src/main.rs");
    assert_eq!(starter_files("javascript").len(), 3);
    let ts: Vec<String> = starter_files("typescript").into_iter().map(|(n, _)| n).collect();
    assert_eq!(ts, strings(&["package.json", "tsconfig.json", "src/index.ts", "src/index.test.ts", "jest.config.js"]));
    assert_eq!(starter_files("cobol"), vec![("README.md".to_string(), "# CF Project".to_string())]);
    let svc = ScaffoldService::new();
    assert_eq!(svc.generate_starter_files("rust"), starter_files("rust"));
}

#[test]
fn validator_commands_per_language() {
    assert_eq!(test_command("python"), strings(&["sh", "-c", "pip install -r requirements-dev.txt -q && python3 -m pytest -v"]));
    assert_eq!(test_command("rust"), strings(&["cargo", "test"]));
    assert_eq!(test_command("javascript"), strings(&["sh", "-c", "npm install && npm test"]));
    assert_eq!(test_command("typescript"), test_command("javascript"));
    assert_eq!(test_command("go"), strings(&["echo", "No runner"]));
    assert_eq!(quality_command("python"), strings(&["sh", "-c", "pip install -r requirements-dev.txt -q && python3 -m flake8 ."]));
    assert_eq!(quality_command("rust"), strings(&["cargo", "clippy", "--", "-D", "warnings"]));
    assert_eq!(quality_command("typescript"), strings(&["sh", "-c", "npm install && npm run lint"]));
    assert_eq!(quality_command("go"), strings(&["echo", "No quality check"]));
}

#[test]
fn easy_board_has_one_probe_behind_one_fuse() {
    let (board, gates) = generated_board("easy");
    let ids: Vec<&str> = board.nodes.iter().map(|n| n.id.as_str()).collect();
    assert_eq!(ids, vec!["start", "probe_unit", "gate_unit", "finish"]);
    assert_eq!(board.nodes[1].kind, NodeKind::Probe);
    assert_eq!(board.nodes[1].validator_id, Some("v_unit".to_string()));
    assert_eq!(board.nodes[2].gate_id, Some("g_unit".to_string()));
    assert_eq!(board.nodes[3].kind, NodeKind::Terminal);
    assert_eq!(board.nodes[3].pos.x, 600.0f32.to_bits());
    let edges: Vec<(&str, &str, &str)> =
        board.edges.iter().map(|e| (e.id.as_str(), e.from.node_id.as_str(), e.to.node_id.as_str())).collect();
    assert_eq!(edges, vec![("e1", "start", "probe_unit"), ("e2", "probe_unit", "gate_unit"), ("ef", "gate_unit", "finish")]);
    assert!(board.edges.iter().all(|e| e.directed));
    assert_eq!(gates.len(), 1);
    assert_eq!(gates[0].id, "g_unit");
    assert_eq!(gates[0].predicate, Predicate::ProbePass { probe_id: "probe_unit".into() });
}

#[test]
fn hard_board_gates_on_two_probes() {
    let (board, gates) = generated_board("hard");
    let ids: Vec<&str> = board.nodes.iter().map(|n| n.id.as_str()).collect();
    assert_eq!(ids, vec!["start", "probe_q", "probe_u", "gate_u", "finish"]);
    assert_eq!(board.nodes[1].pos.y, (-100.0f32).to_bits());
    assert_eq!(board.edges.len(), 5);
    assert_eq!(board.edges[4].from.node_id, "gate_u");
    assert_eq!(
        gates[0].predicate,
        Predicate::All {
            of: vec![
                Predicate::ProbePass { probe_id: "probe_q".into() },
                Predicate::ProbePass { probe_id: "probe_u".into() },
            ]
        }
    );
    assert_eq!(gates[0].id, "g_hard");
}

#[test]
fn generated_environment_follows_the_problem() {
    let env = environment_for("env-1".into(), "Todo app", "rust", "hard", None);
    assert_eq!(env.id, "env-1");
    assert_eq!(env.name, "CF: Todo app");
    assert_eq!(env.language_profile, "rust");
    assert_eq!(env.validators.len(), 2);
    assert_eq!(env.validators[0].id, "v_unit");
    assert_eq!(env.validators[0].kind, "test");
    assert_eq!(env.validators[0].cmd, Some(strings(&["cargo", "test"])));
    assert_eq!(env.validators[1].id, "v_quality");
    assert_eq!(env.validators[1].kind, "quality");
    assert_eq!(env.permissions.ac.allow_edit_paths, Some(strings(&["**/*.py", "**/*.js", "**/*.ts", "**/*.rs"])));
    assert_eq!(env.permissions.dc.allow_config_paths, Some(strings(&["config.yaml", "settings.json"])));
    assert_eq!(env.hp.max, 100);
    assert_eq!(env.hp.damage.policy_violation_attempt, 15);
    assert_eq!(env.hp.heal.clean_run_all, 10);
    assert!(env.hp.anti_thrash.is_none());
    match &env.team {
        GeneratedTeam::Default(t) => {
            assert_eq!(t.sparks[0].id, "ac1");
            assert_eq!(t.sparks[0].kind, SparkKind::Ac);
            assert_eq!(t.sparks[1].kind, SparkKind::Dc);
            assert_eq!(t.dc_config_mode, "tier1");
        },
        _ => panic!("expected the default team"),
    }
    let easy = environment_for("e".into(), "p", "python", "medium", None);
    assert_eq!(easy.validators.len(), 1);
    assert_eq!(easy.board.nodes.len(), 4);
}

#[test]
fn problem_defaults_and_requested_team() {
    let svc = ScaffoldService::new();
    let team = TeamSpec { sparks: vec![SparkSpec { id: "a".into(), kind: "ac".into() }], dc_config_mode: "tier2".into() };
    let problem = ProblemSpec { prompt: None, language_profile: None, difficulty: None, team: Some(team.clone()) };
    assert_eq!(svc.problem_language(&problem), "python");
    let env = svc.generate_env_spec("python", &problem);
    assert_eq!(env.id.len(), 36);
    assert_eq!(env.name, "CF: CircuitForge Project");
    assert_eq!(env.board.nodes.len(), 4);
    assert_eq!(env.team, GeneratedTeam::Requested(team.clone()));
    let other = svc.generate_env_spec("python", &problem);
    assert_ne!(env.id, other.id);

    let req = CompileProblemReq { prompt: "p".into(), language_profile: "rust".into(), difficulty: "hard".into(), team };
    let now = circuitforge::third_party::utc_now_rfc3339().unwrap();
    assert_eq!(&now[..2], "20");
    let rec = svc.problem_record(&req, now.clone());
    assert_eq!(rec.id.len(), 36);
    assert_eq!(rec.id.as_bytes()[8], b'-');
    assert_eq!(rec.prompt, "p");
    assert_eq!(rec.team, req.team);
    assert_eq!(rec.generated_at, now);
    assert_eq!(default_team().sparks.len(), 2);
}
