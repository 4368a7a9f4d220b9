use circuitforge::engine::world::join;
use circuitforge::ipc::commands::{millis_or_zero, now_ms_u64, HitlChecks, HitlSignoffWriteReq};
use circuitforge::ipc::signoff::{
    capsule_hash, hitl_day_dir, hitl_evidence_for, hitl_evidence_path, hitl_file_name_allowed, hitl_location_allowed,
    path_resolves_inside,
};
use circuitforge::sandbox::runner::{collect_chunk, SandboxRunner, StepRun, ToolRun};
use circuitforge::storage::artifacts::{
    artifact_ref_for, checklist_label, content_address, evidence_label, millis_as_i64, now_ms_i64, patch_label, step_output_label,
};
use circuitforge::storage::constructs::compute_hash;
use circuitforge::text::{
    i32_to_decimal, i64_to_decimal, sort_strings, str_ends_with, str_le, str_starts_with, u64_to_decimal,
};
use sha2::Digest;

fn strings(v: &[&str]) -> Vec<String> {
    v.iter().map(|s| s.to_string()).collect()
}

fn sha_hex(bytes: &[u8]) -> String {
    hex::encode(sha2::Sha256::digest(bytes))
}

#[test]
fn content_addresses_are_sha256_hex() {
    assert_eq!(content_address(b""), "e3b0c44298fc1c149afbf4c8996fb92427ae41e4649b934ca495991b7852b855");
    assert_eq!(compute_hash("abc"), "ba7816bf8f01cfea414140de5dae2223b00361a396177a9cb410ff61f20015ad");
    let r = artifact_ref_for(b"abc");
    assert_eq!(r.artifact_id, "ba7816bf8f01cfea414140de5dae2223b00361a396177a9cb410ff61f20015ad");
    assert_eq!(r.rel_path, "ba/ba7816bf8f01cfea414140de5dae2223b00361a396177a9cb410ff61f20015ad");
    assert_eq!(patch_label(b"abc"), "patch/ba7816bf8f01cfea");
}

#[test]
fn clocks_read_after_the_epoch() {
    assert!(now_ms_u64() > 1_600_000_000_000);
    assert!(now_ms_i64().unwrap() > 1_600_000_000_000);
    assert!(circuitforge::storage::constructs::now_ms().unwrap() > 0);
    assert!(circuitforge::storage::tool_runs::now_ms().unwrap() > 0);
    assert!(circuitforge::storage::event_log::now_ms().unwrap() > 0);
}

#[test]
fn decimal_text() {
    assert_eq!(i32_to_decimal(0), "0");
    assert_eq!(i32_to_decimal(-15), "-15");
    assert_eq!(i32_to_decimal(i32::MIN), "-2147483648");
    assert_eq!(u64_to_decimal(u64::MAX), "18446744073709551615");
    assert_eq!(i64_to_decimal(i64::MIN), "-9223372036854775808");
    assert_eq!(i64_to_decimal(1_700_000_000_123), "1700000000123");
}

#[test]
fn artifact_labels() {
    assert_eq!(step_output_label("probe_unit", 0, "stdout"), "probe_unit/step0/stdout");
    assert_eq!(step_output_label("p", 12, "stderr"), "p/step12/stderr");
    assert_eq!(evidence_label("probe_unit"), "probe_unit/evidence");
    assert_eq!(checklist_label("relay1", 1700000000123, "abc"), "checklists/relay1/1700000000123_abc");
}

#[test]
fn string_order_and_affixes() {
    assert!(str_le("a", "b"));
    assert!(str_le("ab", "abc"));
    assert!(!str_le("abc", "ab"));
    assert!(str_le("", ""));
    assert!(str_le("Z", "a"));
    assert!(!str_le("é", "z"));
    assert!(str_starts_with("hitl_weekly.json", "hitl"));
    assert!(str_ends_with("hitl_weekly.json", ".json"));
    assert!(!str_ends_with("json", ".json"));
    let v = strings(&["b", "a", "ab", "B", "a"]);
    let sorted = sort_strings(&v);
    let mut expected = v.clone();
    expected.sort();
    assert_eq!(sorted, expected);
}

#[test]
fn paths_join_as_on_unix() {
    assert_eq!(join(&"/a".to_string(), "b"), "/a/b");
    assert_eq!(join(&"/a/".to_string(), "b"), "/a/b");
    assert_eq!(join(&"/a".to_string(), "/b"), "/b");
    assert_eq!(join(&"".to_string(), "b"), "b");
}

#[test]
fn signoff_paths_and_file_names() {
    let ws = "/w".to_string();
    assert_eq!(hitl_day_dir(&ws, "constructs/c1", "2024-01-01"), "/w/constructs/c1/days/2024-01-01");
    assert_eq!(hitl_evidence_path(&ws, "constructs/c1", "2024-01-01"), "/w/constructs/c1/days/2024-01-01/evidence/hitl_weekly.json");
    assert!(hitl_file_name_allowed("hitl_weekly.json"));
    assert!(hitl_file_name_allowed("hitl.json"));
    assert!(!hitl_file_name_allowed("weekly.json"));
    assert!(!hitl_file_name_allowed("hitl_weekly.txt"));
}

#[test]
fn capsule_hash_binds_names_and_contents_in_order() {
    let entries = vec![("a.txt".to_string(), b"one".to_vec()), ("b.txt".to_string(), b"two".to_vec())];
    let mut h = sha2::Sha256::new();
    h.update("a.txt".as_bytes());
    h.update(b"one");
    h.update("b.txt".as_bytes());
    h.update(b"two");
    assert_eq!(capsule_hash(&entries), format!("{:x}", h.finalize()));
    assert_eq!(capsule_hash(&vec![]), sha_hex(b""));
    let swapped = vec![entries[1].clone(), entries[0].clone()];
    assert_ne!(capsule_hash(&swapped), capsule_hash(&entries));
}

#[test]
fn signoff_evidence_carries_the_request() {
    let req = HitlSignoffWriteReq {
        run_id: "r".into(),
        construct_root: "c".into(),
        cycle_day: "d".into(),
        decision: "approved".into(),
        checks: HitlChecks { reality_contact: true, distance_reduction: false, anti_goodhart: true },
        notes: Some("ok".into()),
        artifacts_reviewed: strings(&["z", "a"]),
    };
    let ev = hitl_evidence_for(&req, "h".into(), "2024-05-01T00:00:00+00:00".into());
    assert_eq!(ev.version, "2.1");
    assert_eq!(ev.kind, "hitl_weekly_audit");
    assert_eq!(ev.reviewer, "human");
    assert_eq!(ev.decision, "approved");
    assert_eq!(ev.checks, req.checks);
    assert_eq!(ev.notes, Some("ok".to_string()));
    assert_eq!(ev.artifacts_reviewed, strings(&["z", "a"]));
    assert_eq!(ev.capsule_hash, "h");
    assert_eq!(ev.timestamp_utc, "2024-05-01T00:00:00+00:00");
}

#[test]
fn tool_runs_split_their_command() {
    let t = ToolRun::for_probe(strings(&["cargo", "test", "-q"]), "/ws".into());
    assert_eq!(t.timeout_ms, 60_000);
    assert_eq!(t.max_bytes_stdout, 256_000);
    assert_eq!(t.max_bytes_stderr, 256_000);
    assert!(t.env.is_empty());
    let (p, args) = t.program_and_args().unwrap();
    assert_eq!(p, "cargo");
    assert_eq!(args, strings(&["test", "-q"]));
    let empty = ToolRun::for_probe(vec![], "/ws".into());
    assert_eq!(empty.program_and_args().err().unwrap(), "empty cmd");
    assert_eq!(t.timeout_message(), "tool timeout after 60000ms");
    let mut z = t.clone();
    z.timeout_ms = 0;
    assert_eq!(z.effective_timeout_ms(), 1);
    assert_eq!(t.effective_timeout_ms(), 60_000);
    let _ = SandboxRunner::new();
}

#[test]
fn output_is_collected_up_to_the_limit() {
    let mut buf = vec![];
    assert!(collect_chunk(&mut buf, b"abc", 10));
    assert_eq!(buf, b"abc");
    assert!(!collect_chunk(&mut buf, b"defghijkl", 10));
    assert_eq!(buf, b"abcdefghij");
    let mut buf = vec![];
    assert!(!collect_chunk(&mut buf, b"", 10));
    assert!(buf.is_empty());
    let mut buf = b"12345".to_vec();
    assert!(!collect_chunk(&mut buf, b"67890", 10));
    assert_eq!(buf, b"1234567890");
}

#[test]
fn probe_steps_stop_at_the_first_failure() {
    let mut run = StepRun::new(3);
    assert_eq!(run.next_step(), Some(0));
    assert!(run.record(0));
    assert_eq!(run.next_step(), Some(1));
    assert!(!run.record(2));
    assert_eq!(run.next_step(), None);
    assert!(!run.all_ok);
    assert_eq!(run.last_exit, 2);
    assert_eq!(run.done, 2);

    let mut ok = StepRun::new(2);
    while let Some(_) = ok.next_step() {
        ok.record(0);
    }
    assert!(ok.all_ok);
    assert_eq!((ok.done, ok.last_exit), (2, 0));

    let none = StepRun::new(0);
    assert_eq!(none.next_step(), None);
    assert!(none.all_ok);
}

#[test]
fn clock_readings_become_timestamps() {
    assert_eq!(millis_or_zero(Some(1_700_000_000_123)), 1_700_000_000_123);
    assert_eq!(millis_or_zero(None), 0);
    assert_eq!(millis_or_zero(Some((1u128 << 64) + 5)), 5);
    assert_eq!(millis_as_i64(Some(1_700_000_000_123)), Some(1_700_000_000_123));
    assert_eq!(millis_as_i64(None), None);
    assert_eq!(millis_as_i64(Some(1u128 << 63)), Some(i64::MIN));
}

#[test]
fn sign_off_locations_stay_inside_the_workspace() {
    let s = |x: &str| x.to_string();
    assert!(hitl_location_allowed(&s("constructs/c1"), &s("2024-05-01")));
    assert!(!hitl_location_allowed(&s("../outside"), &s("2024-05-01")));
    // `..` that stays inside the workspace once resolved is accepted.
    assert!(hitl_location_allowed(&s("c1"), &s("day/../../x")));
    assert!(hitl_location_allowed(&s("a/../c1"), &s("d")));
    assert!(!hitl_location_allowed(&s("c1"), &s("../../../x")));
    assert!(!hitl_location_allowed(&s("x/../.."), &s("d")));
    assert!(!hitl_location_allowed(&s("c1"), &s("/abs")));
    assert!(!hitl_location_allowed(&s("/etc"), &s("d")));
    assert!(hitl_location_allowed(&s("a..b"), &s("d")));
}

#[test]
fn reviewed_artifacts_hash_alike_in_any_order() {
    let a = strings(&["b.txt", "a.txt", "c.txt"]);
    let b = strings(&["c.txt", "b.txt", "a.txt"]);
    assert_eq!(sort_strings(&a), sort_strings(&b));
    let entries = |names: Vec<String>| -> Vec<(String, Vec<u8>)> {
        names.into_iter().map(|n| { let c = n.as_bytes().to_vec(); (n, c) }).collect()
    };
    assert_eq!(capsule_hash(&entries(sort_strings(&a))), capsule_hash(&entries(sort_strings(&b))));
}

#[test]
fn relative_paths_resolve_lexically() {
    assert!(path_resolves_inside(""));
    assert!(path_resolves_inside("./."));
    assert!(path_resolves_inside("a/.."));
    assert!(path_resolves_inside("a//b/../c"));
    assert!(!path_resolves_inside(".."));
    assert!(!path_resolves_inside("a/../.."));
    assert!(!path_resolves_inside("a/../../b/c/d"));
    assert!(path_resolves_inside("...") && path_resolves_inside("..a"));
}
