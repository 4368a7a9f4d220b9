//! Scenario scaffolding: the starter repositories, validator commands and
//! generated environment specifications for each language profile.
use vstd::prelude::*;
use crate::engine::world::{concat, edge_view, node_view};
use crate::ipc::commands::{same_team, CompileProblemReq, TeamSpec};
use crate::schemas::environment::{
    strs, BoardEdge, BoardEdgeView, BoardNode, BoardNodeView, BoardSpec, EdgeKind, EndpointRef,
    EndpointRefView, GateSpec, HpDamage, HpHeal, HpSpec, NodeKind, PermissionsSpec, Predicate,
    RolePerms, SparkKind, TeamConfig, TeamSpark, ValidatorSpec, Vec2,
};
use crate::text::{chars_of, owned, str_eq};
use crate::third_party::{is_hyphenated_uuid, new_uuid_v4};

verus! {

/// Builds starter repositories and environment specifications for scenarios.
pub struct ScaffoldService;

impl ScaffoldService {
    pub fn new() -> (r: ScaffoldService)
        ensures
            r == ScaffoldService,
    {
        ScaffoldService
    }
}

// ---------------------------------------------------------------------------
// Language names
// ---------------------------------------------------------------------------

/// ASCII letters, ASCII digits and `_`: the characters a language name keeps
/// when it becomes part of a directory name.
pub open spec fn is_safe_char(c: char) -> bool {
    ('a' <= c && c <= 'z') || ('A' <= c && c <= 'Z') || ('0' <= c && c <= '9') || c == '_'
}

pub open spec fn safe_char_pred() -> spec_fn(char) -> bool {
    |c: char| is_safe_char(c)
}

/// The language name with every other character removed; `unknown` when
/// nothing is left.
pub open spec fn safe_language_of(language: Seq<char>) -> Seq<char> {
    let kept = language.filter(safe_char_pred());
    if kept.len() == 0 {
        "unknown"@
    } else {
        kept
    }
}

/// The directory of a language's template: `<safe language>_cli_basic`.
pub open spec fn template_dir_name_of(language: Seq<char>) -> Seq<char> {
    safe_language_of(language) + "_cli_basic"@
}

fn is_safe(c: char) -> (r: bool)
    ensures
        r == is_safe_char(c),
{
    ('a' <= c && c <= 'z') || ('A' <= c && c <= 'Z') || ('0' <= c && c <= '9') || c == '_'
}

/// The language name reduced to ASCII letters, digits and `_` (so that it
/// cannot step out of the templates directory); `unknown` when nothing is left.
pub fn safe_language(language: &str) -> (r: String)
    ensures
        r@ == safe_language_of(language@),
{
    let cs = chars_of(language);
    let n = cs.len();
    let mut kept = String::new();
    for i in 0..n
        invariant
            n == cs@.len(),
            cs@ == language@,
            kept@ == language@.take(i as int).filter(safe_char_pred()),
    {
        reveal(Seq::filter);
        assert(language@.take(i + 1).drop_last() =~= language@.take(i as int));
        let c: char = cs[i];
        if is_safe(c) {
            let one = language.substring_char(i, i + 1);
            assert(one@ =~= seq![c]);
            kept.append(one);
        }
        assert(kept@ =~= language@.take(i + 1).filter(safe_char_pred()));
    }
    assert(language@.take(n as int) =~= language@);
    if kept.as_str().is_empty() {
        owned("unknown")
    } else {
        kept
    }
}

/// The name of the template directory for a language profile.
pub fn template_dir_name(language: &str) -> (r: String)
    ensures
        r@ == template_dir_name_of(language@),
{
    let safe = safe_language(language);
    concat(safe.as_str(), "_cli_basic")
}

// ---------------------------------------------------------------------------
// Starter repositories and validator commands
// ---------------------------------------------------------------------------

/// The files written into a fresh repository template when no template
/// directory exists for the language, as (relative path, contents).
pub open spec fn starter_files_of(language: Seq<char>) -> Seq<(Seq<char>, Seq<char>)> {
    if language == "python"@ {
        seq![
            ("main.py"@, "# CircuitForge starter\ndef main():\n    print('Hello')\n\n\nif __name__ == '__main__':\n    main()\n"@),
            ("test_main.py"@, "import main\n\n\ndef test_placeholder():\n    assert True\n"@),
            ("requirements-dev.txt"@, "pytest>=7.0.0\nflake8>=6.0.0\n"@),
        ]
    } else if language == "rust"@ {
        seq![
            ("Cargo.toml"@, "[package]\nname = \"starter\"\nversion = \"0.1.0\"\nedition = \"2021\"\n[dependencies]\n"@),
            ("src/main.rs"@, "fn main() { println!(\"Hello\"); }\n#[cfg(test)]\nmod tests {\n    #[test] fn it_works() { assert_eq!(2 + 2, 4); }\n}\n"@),
        ]
    } else if language == "javascript"@ {
        seq![
            ("package.json"@, "{\n  \"name\": \"starter\",\n  \"version\": \"1.0.0\",\n  \"scripts\": { \"test\": \"jest\", \"lint\": \"eslint .\" },\n  \"devDependencies\": { \"jest\": \"^29.0.0\", \"eslint\": \"^8.0.0\" }\n}"@),
            ("index.js"@, "module.exports = { hello: () => 'Hello' };\n"@),
            ("index.test.js"@, "const { hello } = require('./index');\ntest('hello returns Hello', () => { expect(hello()).toBe('Hello'); });\n"@),
        ]
    } else if language == "typescript"@ {
        seq![
            ("package.json"@, "{\n  \"name\": \"starter\",\n  \"version\": \"1.0.0\",\n  \"scripts\": { \"build\": \"tsc\", \"test\": \"jest\", \"lint\": \"eslint . --ext .ts\" },\n  \"devDependencies\": { \"typescript\": \"^5.0.0\", \"jest\": \"^29.0.0\", \"ts-jest\": \"^29.0.0\", \"@types/jest\": \"^29.0.0\", \"eslint\": \"^8.0.0\", \"@typescript-eslint/parser\": \"^6.0.0\", \"@typescript-eslint/eslint-plugin\": \"^6.0.0\" }\n}\n"@),
            ("tsconfig.json"@, "{\n  \"compilerOptions\": { \"target\": \"ES2020\", \"module\": \"commonjs\", \"strict\": true, \"esModuleInterop\": true, \"skipLibCheck\": true, \"outDir\": \"./dist\" },\n  \"include\": [\"src/**/*\"],\n  \"exclude\": [\"node_modules\"]\n}\n"@),
            ("src/index.ts"@, "export const hello = (): string => 'Hello';\n"@),
            ("src/index.test.ts"@, "import { hello } from './index';\ntest('hello returns Hello', () => { expect(hello()).toBe('Hello'); });\n"@),
            ("jest.config.js"@, "module.exports = { preset: 'ts-jest', testEnvironment: 'node' };\n"@),
        ]
    } else {
        seq![("README.md"@, "# CF Project"@)]
    }
}

/// The characters of both strings of each pair.
pub open spec fn pair_views(v: Seq<(String, String)>) -> Seq<(Seq<char>, Seq<char>)> {
    v.map_values(|p: (String, String)| (p.0@, p.1@))
}

fn file_pair(path: &str, contents: &str) -> (r: (String, String))
    ensures
        r.0@ == path@,
        r.1@ == contents@,
{
    (owned(path), owned(contents))
}

/// The starter files for a language profile (see [`starter_files_of`]).
pub fn starter_files(language: &str) -> (r: Vec<(String, String)>)
    ensures
        pair_views(r@) == starter_files_of(language@),
{
    let r = if str_eq(language, "python") {
        vec![
            file_pair("main.py", "# CircuitForge starter\ndef main():\n    print('Hello')\n\n\nif __name__ == '__main__':\n    main()\n"),
            file_pair("test_main.py", "import main\n\n\ndef test_placeholder():\n    assert True\n"),
            file_pair("requirements-dev.txt", "pytest>=7.0.0\nflake8>=6.0.0\n"),
        ]
    } else if str_eq(language, "rust") {
        vec![
            file_pair("Cargo.toml", "[package]\nname = \"starter\"\nversion = \"0.1.0\"\nedition = \"2021\"\n[dependencies]\n"),
            file_pair("src/main.rs", "fn main() { println!(\"Hello\"); }\n#[cfg(test)]\nmod tests {\n    #[test] fn it_works() { assert_eq!(2 + 2, 4); }\n}\n"),
        ]
    } else if str_eq(language, "javascript") {
        vec![
            file_pair("package.json", "{\n  \"name\": \"starter\",\n  \"version\": \"1.0.0\",\n  \"scripts\": { \"test\": \"jest\", \"lint\": \"eslint .\" },\n  \"devDependencies\": { \"jest\": \"^29.0.0\", \"eslint\": \"^8.0.0\" }\n}"),
            file_pair("index.js", "module.exports = { hello: () => 'Hello' };\n"),
            file_pair("index.test.js", "const { hello } = require('./index');\ntest('hello returns Hello', () => { expect(hello()).toBe('Hello'); });\n"),
        ]
    } else if str_eq(language, "typescript") {
        vec![
            file_pair("package.json", "{\n  \"name\": \"starter\",\n  \"version\": \"1.0.0\",\n  \"scripts\": { \"build\": \"tsc\", \"test\": \"jest\", \"lint\": \"eslint . --ext .ts\" },\n  \"devDependencies\": { \"typescript\": \"^5.0.0\", \"jest\": \"^29.0.0\", \"ts-jest\": \"^29.0.0\", \"@types/jest\": \"^29.0.0\", \"eslint\": \"^8.0.0\", \"@typescript-eslint/parser\": \"^6.0.0\", \"@typescript-eslint/eslint-plugin\": \"^6.0.0\" }\n}\n"),
            file_pair("tsconfig.json", "{\n  \"compilerOptions\": { \"target\": \"ES2020\", \"module\": \"commonjs\", \"strict\": true, \"esModuleInterop\": true, \"skipLibCheck\": true, \"outDir\": \"./dist\" },\n  \"include\": [\"src/**/*\"],\n  \"exclude\": [\"node_modules\"]\n}\n"),
            file_pair("src/index.ts", "export const hello = (): string => 'Hello';\n"),
            file_pair("src/index.test.ts", "import { hello } from './index';\ntest('hello returns Hello', () => { expect(hello()).toBe('Hello'); });\n"),
            file_pair("jest.config.js", "module.exports = { preset: 'ts-jest', testEnvironment: 'node' };\n"),
        ]
    } else {
        vec![file_pair("README.md", "# CF Project")]
    };
    assert(pair_views(r@) =~= starter_files_of(language@));
    r
}


/// The command that runs a language's unit tests.
pub open spec fn test_command_of(language: Seq<char>) -> Seq<Seq<char>> {
    if language == "python"@ {
        seq!["sh"@, "-c"@, "pip install -r requirements-dev.txt -q && python3 -m pytest -v"@]
    } else if language == "rust"@ {
        seq!["cargo"@, "test"@]
    } else if language == "javascript"@ || language == "typescript"@ {
        seq!["sh"@, "-c"@, "npm install && npm test"@]
    } else {
        seq!["echo"@, "No runner"@]
    }
}

/// The command that runs a language's quality checks (distinct from its unit tests).
pub open spec fn quality_command_of(language: Seq<char>) -> Seq<Seq<char>> {
    if language == "python"@ {
        seq!["sh"@, "-c"@, "pip install -r requirements-dev.txt -q && python3 -m flake8 ."@]
    } else if language == "rust"@ {
        seq!["cargo"@, "clippy"@, "--"@, "-D"@, "warnings"@]
    } else if language == "javascript"@ || language == "typescript"@ {
        seq!["sh"@, "-c"@, "npm install && npm run lint"@]
    } else {
        seq!["echo"@, "No quality check"@]
    }
}

fn words2(a: &str, b: &str) -> (r: Vec<String>)
    ensures
        strs(r@) == seq![a@, b@],
{
    let r = vec![owned(a), owned(b)];
    assert(strs(r@) =~= seq![a@, b@]);
    r
}

fn words3(a: &str, b: &str, c: &str) -> (r: Vec<String>)
    ensures
        strs(r@) == seq![a@, b@, c@],
{
    let r = vec![owned(a), owned(b), owned(c)];
    assert(strs(r@) =~= seq![a@, b@, c@]);
    r
}

/// The unit-test command for a language profile (see [`test_command_of`]).
pub fn test_command(language: &str) -> (r: Vec<String>)
    ensures
        strs(r@) == test_command_of(language@),
{
    if str_eq(language, "python") {
        words3("sh", "-c", "pip install -r requirements-dev.txt -q && python3 -m pytest -v")
    } else if str_eq(language, "rust") {
        words2("cargo", "test")
    } else if str_eq(language, "javascript") || str_eq(language, "typescript") {
        words3("sh", "-c", "npm install && npm test")
    } else {
        words2("echo", "No runner")
    }
}

/// The quality-check command for a language profile (see [`quality_command_of`]).
pub fn quality_command(language: &str) -> (r: Vec<String>)
    ensures
        strs(r@) == quality_command_of(language@),
{
    if str_eq(language, "python") {
        words3("sh", "-c", "pip install -r requirements-dev.txt -q && python3 -m flake8 .")
    } else if str_eq(language, "rust") {
        let r = vec![owned("cargo"), owned("clippy"), owned("--"), owned("-D"), owned("warnings")];
        assert(strs(r@) =~= quality_command_of(language@));
        r
    } else if str_eq(language, "javascript") || str_eq(language, "typescript") {
        words3("sh", "-c", "npm install && npm run lint")
    } else {
        words2("echo", "No quality check")
    }
}


// ---------------------------------------------------------------------------
// Problem requests
// ---------------------------------------------------------------------------

/// A problem request as saved for later scaffolding.
#[derive(Debug, Clone, PartialEq, Eq)]
pub struct ProblemRecord {
    pub id: String,
    pub prompt: String,
    pub language_profile: String,
    pub difficulty: String,
    pub team: TeamSpec,
    /// When the record was made, as RFC 3339 text.
    pub generated_at: String,
}

/// The fields of a saved problem that scaffolding reads; each is `None` when
/// the saved document lacks it.
#[derive(Debug, Clone, PartialEq, Eq)]
pub struct ProblemSpec {
    pub prompt: Option<String>,
    pub language_profile: Option<String>,
    pub difficulty: Option<String>,
    pub team: Option<TeamSpec>,
}

/// The language profile a saved problem is scaffolded for (`python` when absent).
pub open spec fn problem_language_of(p: ProblemSpec) -> Seq<char> {
    match p.language_profile {
        Some(l) => l@,
        None => "python"@,
    }
}

// ---------------------------------------------------------------------------
// Generated environments
// ---------------------------------------------------------------------------

/// The team of a generated environment: the one the problem requested, or,
/// when it requested none, one AC and one DC spark.
#[derive(Debug, Clone, PartialEq, Eq)]
pub enum GeneratedTeam {
    Requested(TeamSpec),
    Default(TeamConfig),
}

/// A generated environment specification, as written to `EnvironmentSpec.yaml`.
#[derive(Debug, PartialEq, Eq)]
pub struct GeneratedEnvironment {
    pub id: String,
    pub name: String,
    pub language_profile: String,
    pub team: GeneratedTeam,
    pub board: BoardSpec,
    pub gates: Vec<GateSpec>,
    pub validators: Vec<ValidatorSpec>,
    pub permissions: PermissionsSpec,
    pub hp: HpSpec,
}

/// `f32` bit patterns of the board coordinates used by generated layouts.
pub const COORD_0: u32 = 0x0000_0000u32;
pub const COORD_100: u32 = 0x42C8_0000u32;
pub const COORD_MINUS_100: u32 = 0xC2C8_0000u32;
pub const COORD_200: u32 = 0x4348_0000u32;
pub const COORD_400: u32 = 0x43C8_0000u32;
pub const COORD_600: u32 = 0x4416_0000u32;

/// A node with only an id, kind, label, position and optional validator and gate.
pub open spec fn node_at(
    id: Seq<char>,
    kind: NodeKind,
    label: Seq<char>,
    x: u32,
    y: u32,
    validator_id: Option<Seq<char>>,
    gate_id: Option<Seq<char>>,
) -> BoardNodeView {
    BoardNodeView {
        id,
        kind,
        label,
        pos: Vec2 { x, y },
        size: None,
        module_id: None,
        validator_id,
        gate_id,
        status: None,
        ports: None,
    }
}

/// A directed trace between two nodes.
pub open spec fn trace(id: Seq<char>, from: Seq<char>, to: Seq<char>) -> BoardEdgeView {
    BoardEdgeView {
        id,
        kind: EdgeKind::Trace,
        from: EndpointRefView { node_id: from, port_id: None },
        to: EndpointRefView { node_id: to, port_id: None },
        directed: true,
        inline_gate_ids: None,
        points: None,
    }
}

/// Hard problems get two probes behind one gate; every other difficulty one.
pub open spec fn is_hard(difficulty: Seq<char>) -> bool {
    difficulty == "hard"@
}

/// The nodes of a generated board.
pub open spec fn generated_nodes(difficulty: Seq<char>) -> Seq<BoardNodeView> {
    let start = node_at("start"@, NodeKind::Chip, "Start"@, COORD_0, COORD_0, None, None);
    let finish = node_at("finish"@, NodeKind::Terminal, "Finish"@, COORD_600, COORD_0, None, None);
    if is_hard(difficulty) {
        seq![
            start,
            node_at("probe_q"@, NodeKind::Probe, "Quality"@, COORD_200, COORD_MINUS_100, Some("v_quality"@), None),
            node_at("probe_u"@, NodeKind::Probe, "Unit"@, COORD_200, COORD_100, Some("v_unit"@), None),
            node_at("gate_u"@, NodeKind::Fuse, "Gate"@, COORD_400, COORD_0, None, Some("g_hard"@)),
            finish,
        ]
    } else {
        seq![
            start,
            node_at("probe_unit"@, NodeKind::Probe, "Unit Tests"@, COORD_200, COORD_0, Some("v_unit"@), None),
            node_at("gate_unit"@, NodeKind::Fuse, "Unit Gate"@, COORD_400, COORD_0, None, Some("g_unit"@)),
            finish,
        ]
    }
}

/// The edges of a generated board: from the start through the probes to the
/// fuse, and from the fuse to the finish.
pub open spec fn generated_edges(difficulty: Seq<char>) -> Seq<BoardEdgeView> {
    if is_hard(difficulty) {
        seq![
            trace("e1"@, "start"@, "probe_q"@),
            trace("e2"@, "start"@, "probe_u"@),
            trace("e3"@, "probe_q"@, "gate_u"@),
            trace("e4"@, "probe_u"@, "gate_u"@),
            trace("ef"@, "gate_u"@, "finish"@),
        ]
    } else {
        seq![
            trace("e1"@, "start"@, "probe_unit"@),
            trace("e2"@, "probe_unit"@, "gate_unit"@),
            trace("ef"@, "gate_unit"@, "finish"@),
        ]
    }
}

/// The predicate is `probePass` on the probe.
pub open spec fn probe_pass_on(p: Predicate, probe: Seq<char>) -> bool {
    p matches Predicate::ProbePass { probe_id } && probe_id@ == probe
}

/// The single fuse of a generated board: opened by the unit probe, or, for a
/// hard problem, by both the quality and the unit probe.
pub open spec fn generated_gates(gates: Seq<GateSpec>, difficulty: Seq<char>) -> bool {
    &&& gates.len() == 1
    &&& gates[0].kind@ == "fuse"@
    &&& gates[0].prerequisites is None
    &&& if is_hard(difficulty) {
        &&& gates[0].id@ == "g_hard"@
        &&& gates[0].predicate matches Predicate::All { of }
        &&& of@.len() == 2
        &&& probe_pass_on(of@[0], "probe_q"@)
        &&& probe_pass_on(of@[1], "probe_u"@)
    } else {
        &&& gates[0].id@ == "g_unit"@
        &&& probe_pass_on(gates[0].predicate, "probe_unit"@)
    }
}

/// A validator that runs a single command.
pub open spec fn command_validator(v: ValidatorSpec, id: Seq<char>, kind: Seq<char>, cmd: Seq<Seq<char>>) -> bool {
    &&& v.id@ == id
    &&& v.kind@ == kind
    &&& v.cmd matches Some(c) && strs(c@) == cmd
    &&& v.steps is None
}

/// The validators of a generated environment: the unit tests, and for a hard
/// problem also the quality checks.
pub open spec fn generated_validators(vs: Seq<ValidatorSpec>, language: Seq<char>, difficulty: Seq<char>) -> bool {
    if is_hard(difficulty) {
        &&& vs.len() == 2
        &&& command_validator(vs[0], "v_unit"@, "test"@, test_command_of(language))
        &&& command_validator(vs[1], "v_quality"@, "quality"@, quality_command_of(language))
    } else {
        &&& vs.len() == 1
        &&& command_validator(vs[0], "v_unit"@, "test"@, test_command_of(language))
    }
}

/// AC may edit Python, JavaScript, TypeScript and Rust sources; DC may edit
/// `config.yaml` and `settings.json`; nothing else is granted or denied.
pub open spec fn generated_permissions(p: PermissionsSpec) -> bool {
    &&& p.ac.allow_edit_paths matches Some(a) && strs(a@) == seq!["**/*.py"@, "**/*.js"@, "**/*.ts"@, "**/*.rs"@]
    &&& p.ac.deny_edit_paths is None
    &&& p.ac.allow_config_paths is None
    &&& p.ac.deny_commands is None
    &&& p.dc.allow_config_paths matches Some(c) && strs(c@) == seq!["config.yaml"@, "settings.json"@]
    &&& p.dc.allow_edit_paths is None
    &&& p.dc.deny_edit_paths is None
    &&& p.dc.deny_commands is None
}

/// The HP rules of a generated environment.
pub open spec fn generated_hp() -> HpSpec {
    HpSpec {
        max: 100,
        start: 100,
        damage: HpDamage { unit_fail: 5, integration_fail: 10, quality_fail: 3, policy_violation_attempt: 15 },
        heal: HpHeal { unlock_gate_unit: 2, unlock_gate_integration: 5, clean_run_all: 10 },
        anti_thrash: None,
    }
}

/// One AC spark `ac1` and one DC spark `dc1`, in `tier1` configuration mode.
pub open spec fn is_default_team(t: TeamConfig) -> bool {
    &&& t.sparks@.len() == 2
    &&& t.sparks@[0].id@ == "ac1"@
    &&& t.sparks@[0].kind == SparkKind::Ac
    &&& t.sparks@[1].id@ == "dc1"@
    &&& t.sparks@[1].kind == SparkKind::Dc
    &&& t.dc_config_mode@ == "tier1"@
}

/// The environment generated for a problem: named `CF: <prompt>`, laid out and
/// gated by difficulty, validated with the language's commands.
pub open spec fn generated_environment(
    r: GeneratedEnvironment,
    env_id: Seq<char>,
    prompt: Seq<char>,
    language: Seq<char>,
    difficulty: Seq<char>,
    team: Option<TeamSpec>,
) -> bool {
    &&& r.id@ == env_id
    &&& r.name@ == "CF: "@ + prompt
    &&& r.language_profile@ == language
    &&& match team {
        Some(t) => r.team matches GeneratedTeam::Requested(u) && same_team(u, t),
        None => r.team matches GeneratedTeam::Default(c) && is_default_team(c),
    }
    &&& r.board.nodes@.map_values(node_view()) == generated_nodes(difficulty)
    &&& r.board.edges@.map_values(edge_view()) == generated_edges(difficulty)
    &&& generated_gates(r.gates@, difficulty)
    &&& generated_validators(r.validators@, language, difficulty)
    &&& generated_permissions(r.permissions)
    &&& r.hp == generated_hp()
}

fn make_node(id: &str, kind: NodeKind, label: &str, x: u32, y: u32, validator_id: Option<&str>, gate_id: Option<&str>) -> (r: BoardNode)
    ensures
        r@ == node_at(
            id@,
            kind,
            label@,
            x,
            y,
            match validator_id { Some(v) => Some(v@), None => None },
            match gate_id { Some(g) => Some(g@), None => None },
        ),
{
    BoardNode {
        id: owned(id),
        kind,
        label: owned(label),
        pos: Vec2 { x, y },
        size: None,
        module_id: None,
        validator_id: match validator_id { Some(v) => Some(owned(v)), None => None },
        gate_id: match gate_id { Some(g) => Some(owned(g)), None => None },
        status: None,
        ports: None,
    }
}

fn make_trace(id: &str, from: &str, to: &str) -> (r: BoardEdge)
    ensures
        r@ == trace(id@, from@, to@),
{
    BoardEdge {
        id: owned(id),
        kind: EdgeKind::Trace,
        from: EndpointRef { node_id: owned(from), port_id: None },
        to: EndpointRef { node_id: owned(to), port_id: None },
        directed: true,
        inline_gate_ids: None,
        points: None,
    }
}

fn probe_pass(probe: &str) -> (r: Predicate)
    ensures
        probe_pass_on(r, probe@),
{
    Predicate::ProbePass { probe_id: owned(probe) }
}

fn command_validator_of(id: &str, kind: &str, cmd: Vec<String>) -> (r: ValidatorSpec)
    ensures
        command_validator(r, id@, kind@, strs(cmd@)),
{
    ValidatorSpec { id: owned(id), kind: owned(kind), cmd: Some(cmd), steps: None }
}

/// The layout of a generated board for a difficulty.
pub fn generated_board(difficulty: &str) -> (r: (BoardSpec, Vec<GateSpec>))
    ensures
        r.0.nodes@.map_values(node_view()) == generated_nodes(difficulty@),
        r.0.edges@.map_values(edge_view()) == generated_edges(difficulty@),
        generated_gates(r.1@, difficulty@),
{
    let start = make_node("start", NodeKind::Chip, "Start", COORD_0, COORD_0, None, None);
    let finish = make_node("finish", NodeKind::Terminal, "Finish", COORD_600, COORD_0, None, None);
    if str_eq(difficulty, "hard") {
        let nodes = vec![
            start,
            make_node("probe_q", NodeKind::Probe, "Quality", COORD_200, COORD_MINUS_100, Some("v_quality"), None),
            make_node("probe_u", NodeKind::Probe, "Unit", COORD_200, COORD_100, Some("v_unit"), None),
            make_node("gate_u", NodeKind::Fuse, "Gate", COORD_400, COORD_0, None, Some("g_hard")),
            finish,
        ];
        let edges = vec![
            make_trace("e1", "start", "probe_q"),
            make_trace("e2", "start", "probe_u"),
            make_trace("e3", "probe_q", "gate_u"),
            make_trace("e4", "probe_u", "gate_u"),
            make_trace("ef", "gate_u", "finish"),
        ];
        let of = vec![probe_pass("probe_q"), probe_pass("probe_u")];
        let gate = GateSpec {
            id: owned("g_hard"),
            kind: owned("fuse"),
            predicate: Predicate::All { of },
            prerequisites: None,
        };
        let gates = vec![gate];
        assert(nodes@.map_values(node_view()) =~= generated_nodes(difficulty@));
        assert(edges@.map_values(edge_view()) =~= generated_edges(difficulty@));
        (BoardSpec { nodes, edges }, gates)
    } else {
        let nodes = vec![
            start,
            make_node("probe_unit", NodeKind::Probe, "Unit Tests", COORD_200, COORD_0, Some("v_unit"), None),
            make_node("gate_unit", NodeKind::Fuse, "Unit Gate", COORD_400, COORD_0, None, Some("g_unit")),
            finish,
        ];
        let edges = vec![
            make_trace("e1", "start", "probe_unit"),
            make_trace("e2", "probe_unit", "gate_unit"),
            make_trace("ef", "gate_unit", "finish"),
        ];
        let gate = GateSpec {
            id: owned("g_unit"),
            kind: owned("fuse"),
            predicate: probe_pass("probe_unit"),
            prerequisites: None,
        };
        let gates = vec![gate];
        assert(nodes@.map_values(node_view()) =~= generated_nodes(difficulty@));
        assert(edges@.map_values(edge_view()) =~= generated_edges(difficulty@));
        (BoardSpec { nodes, edges }, gates)
    }
}

/// One AC spark `ac1` and one DC spark `dc1`, in `tier1` configuration mode.
pub fn default_team() -> (r: TeamConfig)
    ensures
        is_default_team(r),
{
    TeamConfig {
        sparks: vec![
            TeamSpark { id: owned("ac1"), kind: SparkKind::Ac },
            TeamSpark { id: owned("dc1"), kind: SparkKind::Dc },
        ],
        dc_config_mode: owned("tier1"),
    }
}

/// The permissions of a generated environment (see [`generated_permissions`]).
pub fn generated_permissions_spec() -> (r: PermissionsSpec)
    ensures
        generated_permissions(r),
{
    let edit = vec![owned("**/*.py"), owned("**/*.js"), owned("**/*.ts"), owned("**/*.rs")];
    let config = vec![owned("config.yaml"), owned("settings.json")];
    proof {
        assert(strs(edit@) =~= seq!["**/*.py"@, "**/*.js"@, "**/*.ts"@, "**/*.rs"@]);
        assert(strs(config@) =~= seq!["config.yaml"@, "settings.json"@]);
    }
    PermissionsSpec {
        ac: RolePerms { allow_edit_paths: Some(edit), deny_edit_paths: None, allow_config_paths: None, deny_commands: None },
        dc: RolePerms { allow_edit_paths: None, deny_edit_paths: None, allow_config_paths: Some(config), deny_commands: None },
    }
}

/// The environment generated for a problem with the given identifier (see
/// [`generated_environment`]).
pub fn environment_for(
    env_id: String,
    prompt: &str,
    language: &str,
    difficulty: &str,
    team: Option<TeamSpec>,
) -> (r: GeneratedEnvironment)
    ensures
        generated_environment(r, env_id@, prompt@, language@, difficulty@, team),
{
    let (board, gates) = generated_board(difficulty);
    let validators = if str_eq(difficulty, "hard") {
        vec![
            command_validator_of("v_unit", "test", test_command(language)),
            command_validator_of("v_quality", "quality", quality_command(language)),
        ]
    } else {
        vec![command_validator_of("v_unit", "test", test_command(language))]
    };
    let team = match team {
        Some(t) => GeneratedTeam::Requested(t),
        None => GeneratedTeam::Default(default_team()),
    };
    GeneratedEnvironment {
        id: env_id,
        name: concat("CF: ", prompt),
        language_profile: owned(language),
        team,
        board,
        gates,
        validators,
        permissions: generated_permissions_spec(),
        hp: HpSpec {
            max: 100,
            start: 100,
            damage: HpDamage { unit_fail: 5, integration_fail: 10, quality_fail: 3, policy_violation_attempt: 15 },
            heal: HpHeal { unlock_gate_unit: 2, unlock_gate_integration: 5, clean_run_all: 10 },
            anti_thrash: None,
        },
    }
}

/// The prompt a saved problem is named after (`CircuitForge Project` when absent).
pub open spec fn problem_prompt_of(p: ProblemSpec) -> Seq<char> {
    match p.prompt {
        Some(s) => s@,
        None => "CircuitForge Project"@,
    }
}

/// The difficulty of a saved problem (`easy` when absent).
pub open spec fn problem_difficulty_of(p: ProblemSpec) -> Seq<char> {
    match p.difficulty {
        Some(s) => s@,
        None => "easy"@,
    }
}

impl ScaffoldService {
    /// The record saved for a problem request, with a fresh identifier and the
    /// time it was generated (the current time, see
    /// [`crate::third_party::utc_now_rfc3339`]).
    pub fn problem_record(&self, req: &CompileProblemReq, generated_at: String) -> (r: ProblemRecord)
        ensures
            is_hyphenated_uuid(r.id@),
            r.generated_at == generated_at,
            r.prompt == req.prompt,
            r.language_profile == req.language_profile,
            r.difficulty == req.difficulty,
            same_team(r.team, req.team),
    {
        ProblemRecord {
            id: new_uuid_v4(),
            prompt: req.prompt.clone(),
            language_profile: req.language_profile.clone(),
            difficulty: req.difficulty.clone(),
            team: req.team.clone(),
            generated_at,
        }
    }

    /// The language profile a saved problem is scaffolded for (`python` when absent).
    pub fn problem_language(&self, problem: &ProblemSpec) -> (r: String)
        ensures
            r@ == problem_language_of(*problem),
    {
        match &problem.language_profile {
            Some(l) => l.clone(),
            None => owned("python"),
        }
    }

    /// The files written into the repository template when the language has no
    /// template directory.
    pub fn generate_starter_files(&self, language: &str) -> (r: Vec<(String, String)>)
        ensures
            pair_views(r@) == starter_files_of(language@),
    {
        starter_files(language)
    }

    /// The environment specification generated for a saved problem, under a
    /// fresh identifier.
    pub fn generate_env_spec(&self, language: &str, problem: &ProblemSpec) -> (r: GeneratedEnvironment)
        ensures
            is_hyphenated_uuid(r.id@),
            generated_environment(
                r,
                r.id@,
                problem_prompt_of(*problem),
                language@,
                problem_difficulty_of(*problem),
                problem.team,
            ),
    {
        let env_id = new_uuid_v4();
        let prompt = match &problem.prompt {
            Some(p) => p.clone(),
            None => owned("CircuitForge Project"),
        };
        let difficulty = match &problem.difficulty {
            Some(d) => d.clone(),
            None => owned("easy"),
        };
        environment_for(env_id, prompt.as_str(), language, difficulty.as_str(), problem.team.clone())
    }
}


// ---------------------------------------------------------------------------
// The toolchains agree: what the validators run, the starter repository has
// ---------------------------------------------------------------------------

/// `text` occurs in `s`.
pub open spec fn contains_text(s: Seq<char>, text: Seq<char>) -> bool {
    exists|k: int| 0 <= k && k + text.len() <= s.len() && #[trigger] s.subrange(k, k + text.len()) == text
}

/// The files include one at `path` whose contents contain `text`.
pub open spec fn file_mentions(files: Seq<(Seq<char>, Seq<char>)>, path: Seq<char>, text: Seq<char>) -> bool {
    exists|i: int| 0 <= i < files.len() && (#[trigger] files[i]).0 == path && contains_text(files[i].1, text)
}

/// A file at `path` whose contents hold `text` at position `k` mentions it.
proof fn lemma_file_mentions_at(files: Seq<(Seq<char>, Seq<char>)>, i: int, path: Seq<char>, text: Seq<char>, k: int)
    requires
        0 <= i < files.len(),
        files[i].0 == path,
        0 <= k,
        k + text.len() <= files[i].1.len(),
        files[i].1.subrange(k, k + text.len()) == text,
    ensures
        file_mentions(files, path, text),
{
    assert(contains_text(files[i].1, text));
}

/// The npm test command, `npm install && npm test`.
pub open spec fn npm_test() -> Seq<Seq<char>> {
    seq!["sh"@, "-c"@, "npm install && npm test"@]
}

/// The npm lint command, `npm install && npm run lint`.
pub open spec fn npm_lint() -> Seq<Seq<char>> {
    seq!["sh"@, "-c"@, "npm install && npm run lint"@]
}

/// The npm toolchain holds together: every language whose unit tests run with
/// `npm test` checks its quality with `npm run lint`, and its starter
/// `package.json` declares both a `test` and a `lint` script, so both
/// validator commands work in a fresh repository.
pub proof fn lemma_npm_toolchain_consistent(language: Seq<char>)
    requires
        test_command_of(language) == npm_test(),
    ensures
        quality_command_of(language) == npm_lint(),
        file_mentions(starter_files_of(language), "package.json"@, "\"test\": "@),
        file_mentions(starter_files_of(language), "package.json"@, "\"lint\": "@),
{
    reveal_strlit("npm install && npm test");
    reveal_strlit("pip install -r requirements-dev.txt -q && python3 -m pytest -v");
    assert(test_command_of(language)[2] == "npm install && npm test"@);
    if language == "python"@ {
        assert("pip install -r requirements-dev.txt -q && python3 -m pytest -v"@[0] != "npm install && npm test"@[0]);
    } else if language == "rust"@ {
        assert(test_command_of(language).len() == 2);
    } else if language == "javascript"@ {
        let files = starter_files_of(language);
        let pkg = files[0].1;
        reveal_strlit("{\n  \"name\": \"starter\",\n  \"version\": \"1.0.0\",\n  \"scripts\": { \"test\": \"jest\", \"lint\": \"eslint .\" },\n  \"devDependencies\": { \"jest\": \"^29.0.0\", \"eslint\": \"^8.0.0\" }\n}");
        reveal_strlit("package.json");
        reveal_strlit("\"test\": ");
        reveal_strlit("\"lint\": ");
        assert(pkg.subrange(60, 68) =~= "\"test\": "@);
        assert(pkg.subrange(76, 84) =~= "\"lint\": "@);
        assert(files[0].0 == "package.json"@);
        lemma_file_mentions_at(files, 0, "package.json"@, "\"test\": "@, 60);
        lemma_file_mentions_at(files, 0, "package.json"@, "\"lint\": "@, 76);
    } else if language == "typescript"@ {
        let files = starter_files_of(language);
        let pkg = files[0].1;
        reveal_strlit("{\n  \"name\": \"starter\",\n  \"version\": \"1.0.0\",\n  \"scripts\": { \"build\": \"tsc\", \"test\": \"jest\", \"lint\": \"eslint . --ext .ts\" },\n  \"devDependencies\": { \"typescript\": \"^5.0.0\", \"jest\": \"^29.0.0\", \"ts-jest\": \"^29.0.0\", \"@types/jest\": \"^29.0.0\", \"eslint\": \"^8.0.0\", \"@typescript-eslint/parser\": \"^6.0.0\", \"@typescript-eslint/eslint-plugin\": \"^6.0.0\" }\n}\n");
        reveal_strlit("package.json");
        reveal_strlit("\"test\": ");
        reveal_strlit("\"lint\": ");
        assert(pkg.subrange(76, 84) =~= "\"test\": "@);
        assert(pkg.subrange(92, 100) =~= "\"lint\": "@);
        assert(files[0].0 == "package.json"@);
        lemma_file_mentions_at(files, 0, "package.json"@, "\"test\": "@, 76);
        lemma_file_mentions_at(files, 0, "package.json"@, "\"lint\": "@, 92);
    } else {
        assert(test_command_of(language).len() == 2);
    }
}

/// The Python toolchain holds together: every language whose unit tests run
/// pytest from `requirements-dev.txt` checks its quality with flake8 from the
/// same file, and its starter `requirements-dev.txt` lists both tools.
pub proof fn lemma_python_toolchain_consistent(language: Seq<char>)
    requires
        test_command_of(language) == seq!["sh"@, "-c"@, "pip install -r requirements-dev.txt -q && python3 -m pytest -v"@],
    ensures
        quality_command_of(language) == seq!["sh"@, "-c"@, "pip install -r requirements-dev.txt -q && python3 -m flake8 ."@],
        file_mentions(starter_files_of(language), "requirements-dev.txt"@, "pytest"@),
        file_mentions(starter_files_of(language), "requirements-dev.txt"@, "flake8"@),
{
    reveal_strlit("npm install && npm test");
    reveal_strlit("pip install -r requirements-dev.txt -q && python3 -m pytest -v");
    assert(test_command_of(language)[2] == "pip install -r requirements-dev.txt -q && python3 -m pytest -v"@);
    if language == "python"@ {
        let files = starter_files_of(language);
        let reqs = files[2].1;
        reveal_strlit("pytest>=7.0.0\nflake8>=6.0.0\n");
        reveal_strlit("pytest");
        reveal_strlit("flake8");
        assert(reqs.subrange(0, 6) =~= "pytest"@);
        assert(reqs.subrange(14, 20) =~= "flake8"@);
        assert(files[2].0 == "requirements-dev.txt"@);
        lemma_file_mentions_at(files, 2, "requirements-dev.txt"@, "pytest"@, 0);
        lemma_file_mentions_at(files, 2, "requirements-dev.txt"@, "flake8"@, 14);
    } else if language == "rust"@ {
        assert(test_command_of(language).len() == 2);
    } else if language == "javascript"@ || language == "typescript"@ {
        assert("pip install -r requirements-dev.txt -q && python3 -m pytest -v"@[0] != "npm install && npm test"@[0]);
    } else {
        assert(test_command_of(language).len() == 2);
    }
}

/// The Cargo toolchain holds together: every language whose unit tests run
/// with `cargo test` checks its quality with clippy (warnings denied), and its
/// starter repository has a `Cargo.toml` package manifest.
pub proof fn lemma_cargo_toolchain_consistent(language: Seq<char>)
    requires
        test_command_of(language) == seq!["cargo"@, "test"@],
    ensures
        quality_command_of(language) == seq!["cargo"@, "clippy"@, "--"@, "-D"@, "warnings"@],
        file_mentions(starter_files_of(language), "Cargo.toml"@, "[package]"@),
{
    reveal_strlit("cargo");
    reveal_strlit("echo");
    assert(test_command_of(language)[0] == "cargo"@);
    if language == "rust"@ {
        reveal_strlit("rust");
        reveal_strlit("python");
        assert("rust"@.len() != "python"@.len());
        let files = starter_files_of(language);
        reveal_strlit("[package]\nname = \"starter\"\nversion = \"0.1.0\"\nedition = \"2021\"\n[dependencies]\n");
        reveal_strlit("[package]");
        assert(files[0].1.subrange(0, 9) =~= "[package]"@);
        assert(files[0].0 == "Cargo.toml"@);
        lemma_file_mentions_at(files, 0, "Cargo.toml"@, "[package]"@, 0);
    } else if language == "python"@ || language == "javascript"@ || language == "typescript"@ {
        assert(test_command_of(language).len() == 3);
    } else {
        assert("cargo"@.len() != "echo"@.len());
    }
}

/// A quality check runs exactly where tests run: the quality command is the
/// no-op `echo` for precisely the languages whose test command is.
pub proof fn lemma_quality_runs_with_tests(language: Seq<char>)
    ensures
        (quality_command_of(language)[0] == "echo"@) == (test_command_of(language)[0] == "echo"@),
{
    reveal_strlit("echo");
    reveal_strlit("sh");
    reveal_strlit("cargo");
    assert("echo"@.len() != "sh"@.len());
    assert("echo"@.len() != "cargo"@.len());
}


/// The files include one named `path`.
pub open spec fn has_file(files: Seq<(Seq<char>, Seq<char>)>, path: Seq<char>) -> bool {
    exists|i: int| 0 <= i < files.len() && (#[trigger] files[i]).0 == path
}

/// No file of the list is named `path`.
proof fn lemma_no_file(files: Seq<(Seq<char>, Seq<char>)>, path: Seq<char>)
    requires
        forall|i: int| 0 <= i < files.len() ==> (#[trigger] files[i]).0 != path,
    ensures
        !has_file(files, path),
{
}

/// The starter repository's manifest decides the toolchain: a repository
/// with a `package.json` is tested with `npm test` and checked with
/// `npm run lint`, one with a `requirements-dev.txt` with pytest and flake8,
/// one with a `Cargo.toml` with `cargo test` and clippy, and one with none of
/// them gets the `echo` placeholders for both.
pub proof fn lemma_manifest_selects_toolchain(language: Seq<char>)
    ensures
        has_file(starter_files_of(language), "package.json"@)
            ==> test_command_of(language) == npm_test() && quality_command_of(language) == npm_lint(),
        has_file(starter_files_of(language), "requirements-dev.txt"@) ==> test_command_of(language) == seq![
            "sh"@,
            "-c"@,
            "pip install -r requirements-dev.txt -q && python3 -m pytest -v"@,
        ] && quality_command_of(language) == seq![
            "sh"@,
            "-c"@,
            "pip install -r requirements-dev.txt -q && python3 -m flake8 ."@,
        ],
        has_file(starter_files_of(language), "Cargo.toml"@) ==> test_command_of(language) == seq!["cargo"@, "test"@]
            && quality_command_of(language) == seq!["cargo"@, "clippy"@, "--"@, "-D"@, "warnings"@],
        !has_file(starter_files_of(language), "package.json"@) && !has_file(starter_files_of(language), "requirements-dev.txt"@)
            && !has_file(starter_files_of(language), "Cargo.toml"@)
            ==> test_command_of(language)[0] == "echo"@ && quality_command_of(language)[0] == "echo"@,
{
    let files = starter_files_of(language);
    let pkg = "package.json"@;
    let req = "requirements-dev.txt"@;
    let cargo = "Cargo.toml"@;
    reveal_strlit("package.json");
    reveal_strlit("requirements-dev.txt");
    reveal_strlit("Cargo.toml");
    if language == "python"@ {
        reveal_strlit("main.py");
        reveal_strlit("test_main.py");
        assert forall|i: int| 0 <= i < files.len() implies (#[trigger] files[i]).0 != pkg && files[i].0 != cargo by {
            if i == 0 {
                assert(files[i].0.len() == 7);
            } else if i == 1 {
                assert(files[i].0[0] != pkg[0]);
                assert(files[i].0.len() != cargo.len());
            } else {
                assert(files[i].0 == req);
            }
        }
        lemma_no_file(files, pkg);
        lemma_no_file(files, cargo);
        assert(files[2].0 == req);
    } else if language == "rust"@ {
        reveal_strlit("src/main.rs");
        assert forall|i: int| 0 <= i < files.len() implies (#[trigger] files[i]).0 != pkg && files[i].0 != req by {
            if i == 0 {
                assert(files[i].0 == cargo);
            } else {
                assert(files[i].0.len() == 11);
            }
        }
        lemma_no_file(files, pkg);
        lemma_no_file(files, req);
        assert(files[0].0 == cargo);
    } else if language == "javascript"@ {
        reveal_strlit("index.js");
        reveal_strlit("index.test.js");
        assert forall|i: int| 0 <= i < files.len() implies (#[trigger] files[i]).0 != req && files[i].0 != cargo by {
            if i == 0 {
                assert(files[i].0 == pkg);
            } else if i == 1 {
                assert(files[i].0.len() == 8);
            } else {
                assert(files[i].0.len() == 13);
            }
        }
        lemma_no_file(files, req);
        lemma_no_file(files, cargo);
        assert(files[0].0 == pkg);
    } else if language == "typescript"@ {
        reveal_strlit("tsconfig.json");
        reveal_strlit("src/index.ts");
        reveal_strlit("src/index.test.ts");
        reveal_strlit("jest.config.js");
        assert forall|i: int| 0 <= i < files.len() implies (#[trigger] files[i]).0 != req && files[i].0 != cargo by {
            if i == 0 {
                assert(files[i].0 == pkg);
            } else if i == 1 {
                assert(files[i].0.len() == 13);
            } else if i == 2 {
                assert(files[i].0.len() == 12);
            } else if i == 3 {
                assert(files[i].0.len() == 17);
            } else {
                assert(files[i].0.len() == 14);
            }
        }
        lemma_no_file(files, req);
        lemma_no_file(files, cargo);
        assert(files[0].0 == pkg);
    } else {
        reveal_strlit("README.md");
        reveal_strlit("echo");
        assert forall|i: int| 0 <= i < files.len() implies (#[trigger] files[i]).0 != pkg && files[i].0 != req
            && files[i].0 != cargo by {
            assert(files[i].0.len() == 9);
        }
        lemma_no_file(files, pkg);
        lemma_no_file(files, req);
        lemma_no_file(files, cargo);
    }
}

} // verus!
