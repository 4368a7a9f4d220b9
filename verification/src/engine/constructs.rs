//! Construct evaluation: the certification state of a construct is a pure fold
//! over the run's event log.
use vstd::prelude::*;
use crate::schemas::construct::{ConstructSpec, ConstructStatus, EvaluateResult, Invariant};
use crate::storage::event_log::RunEvent;
use crate::engine::world::concat;
use crate::text::{seq_starts_with, str_eq, str_starts_with, owned};

verus! {

/// `probe:`, the prefix of a probe reference.
pub open spec fn probe_ref_prefix() -> Seq<char> {
    seq!['p', 'r', 'o', 'b', 'e', ':']
}

/// `PatchApplied`, the event that commits a patch to the workspace.
pub open spec fn patch_applied_type() -> Seq<char> {
    seq!['P', 'a', 't', 'c', 'h', 'A', 'p', 'p', 'l', 'i', 'e', 'd']
}

/// `ProbeFinished`, the event that reports a probe's result.
pub open spec fn probe_finished_type() -> Seq<char> {
    seq!['P', 'r', 'o', 'b', 'e', 'F', 'i', 'n', 'i', 's', 'h', 'e', 'd']
}

/// `pass`, the status of a probe that succeeded.
pub open spec fn pass_status() -> Seq<char> {
    seq!['p', 'a', 's', 's']
}

/// The probe id named by a probe reference: the reference without its
/// `probe:` prefix, or the reference itself when it has none.
pub open spec fn probe_id_of(r: Seq<char>) -> Seq<char> {
    if seq_starts_with(r, probe_ref_prefix()) {
        r.subrange(probe_ref_prefix().len() as int, r.len() as int)
    } else {
        r
    }
}

/// `ConfigEdited`, the event that commits a configuration edit to the workspace.
pub open spec fn config_edited_type() -> Seq<char> {
    seq!['C', 'o', 'n', 'f', 'i', 'g', 'E', 'd', 'i', 't', 'e', 'd']
}

/// A build action: an applied patch or a configuration edit.
pub open spec fn is_build_event_type(t: Seq<char>) -> bool {
    t == patch_applied_type() || t == config_edited_type()
}

/// The path lies under `root`: the root is `.` (the whole workspace), or the
/// path is the root itself, or it continues the root with `/`.
pub open spec fn path_under_root(path: Seq<char>, root: Seq<char>) -> bool {
    ||| root == seq!['.']
    ||| path == root
    ||| seq_starts_with(path, root.push('/'))
}

/// The event is a build action that touches a path under `root`.
pub open spec fn is_mutation_under(e: RunEvent, root: Seq<char>) -> bool {
    &&& is_build_event_type(e.event_type@)
    &&& e.payload.touched_paths is Some
    &&& exists|i: int|
        0 <= i < e.payload.touched_paths->0@.len() && path_under_root(
            #[trigger] e.payload.touched_paths->0@[i]@,
            root,
        )
}

/// The sequence number of the last event in the log that mutates `root`,
/// or `None` when there is none.
pub open spec fn last_mutation_seq(events: Seq<RunEvent>, root: Seq<char>) -> Option<u64>
    decreases events.len(),
{
    if events.len() == 0 {
        None
    } else if is_mutation_under(events.last(), root) {
        Some(events.last().seq)
    } else {
        last_mutation_seq(events.drop_last(), root)
    }
}

/// A report with sequence number `seq` comes after the last mutation `lm`
/// (always, when nothing was mutated).
pub open spec fn after_mutation(seq: u64, lm: Option<u64>) -> bool {
    match lm {
        None => true,
        Some(m) => seq > m,
    }
}

/// The event reports a probe result: it is a `ProbeFinished` event whose
/// payload names a probe id and a status.
pub open spec fn is_probe_report(e: RunEvent) -> bool {
    &&& e.event_type@ == probe_finished_type()
    &&& e.payload.probe_id is Some
    &&& e.payload.status is Some
}

/// The status and sequence number of the last report of probe `pid`.
pub open spec fn latest_report(events: Seq<RunEvent>, pid: Seq<char>) -> Option<(Seq<char>, u64)>
    decreases events.len(),
{
    if events.len() == 0 {
        None
    } else {
        let e = events.last();
        if is_probe_report(e) && e.payload.probe_id->0@ == pid {
            Some((e.payload.status->0@, e.seq))
        } else {
            latest_report(events.drop_last(), pid)
        }
    }
}

/// Some probe result has been reported in the log.
pub open spec fn has_any_report(events: Seq<RunEvent>) -> bool {
    exists|i: int| 0 <= i < events.len() && is_probe_report(#[trigger] events[i])
}

/// No report of `pid` is newer than the last mutation under `root`.
pub open spec fn probe_missing(events: Seq<RunEvent>, root: Seq<char>, pid: Seq<char>) -> bool {
    match latest_report(events, pid) {
        None => true,
        Some((_, seq)) => !after_mutation(seq, last_mutation_seq(events, root)),
    }
}

/// The newest report of `pid` follows the last mutation under `root` and is not a pass.
pub open spec fn probe_failing(events: Seq<RunEvent>, root: Seq<char>, pid: Seq<char>) -> bool {
    match latest_report(events, pid) {
        None => false,
        Some((status, seq)) => after_mutation(seq, last_mutation_seq(events, root)) && status
            != pass_status(),
    }
}

/// The newest report of `pid` follows the last mutation under `root` and is a pass.
pub open spec fn probe_fresh_pass(events: Seq<RunEvent>, root: Seq<char>, pid: Seq<char>) -> bool {
    match latest_report(events, pid) {
        None => false,
        Some((status, seq)) => after_mutation(seq, last_mutation_seq(events, root)) && status
            == pass_status(),
    }
}

/// The probe ids of the construct's required probes, in order.
pub open spec fn required_probe_ids(spec: ConstructSpec) -> Seq<Seq<char>> {
    spec.acceptance.required_probes@.map_values(|r: String| probe_id_of(r@))
}

pub open spec fn missing_pred(events: Seq<RunEvent>, root: Seq<char>) -> spec_fn(Seq<char>) -> bool {
    |pid: Seq<char>| probe_missing(events, root, pid)
}

pub open spec fn failing_pred(events: Seq<RunEvent>, root: Seq<char>) -> spec_fn(Seq<char>) -> bool {
    |pid: Seq<char>| probe_failing(events, root, pid)
}

pub open spec fn satisfied_pred(events: Seq<RunEvent>, root: Seq<char>) -> spec_fn(Invariant) -> bool {
    |inv: Invariant| probe_fresh_pass(events, root, probe_id_of(inv.probe_ref@))
}

pub open spec fn string_view() -> spec_fn(String) -> Seq<char> {
    |s: String| s@
}

pub open spec fn invariant_id() -> spec_fn(Invariant) -> Seq<char> {
    |inv: Invariant| inv.id@
}

/// The required probes with no report since the last mutation under the root.
pub open spec fn missing_probes_of(spec: ConstructSpec, events: Seq<RunEvent>) -> Seq<Seq<char>> {
    required_probe_ids(spec).filter(missing_pred(events, spec.root@))
}

/// The required probes whose newest report since the last mutation is not a pass.
pub open spec fn failing_probes_of(spec: ConstructSpec, events: Seq<RunEvent>) -> Seq<Seq<char>> {
    required_probe_ids(spec).filter(failing_pred(events, spec.root@))
}

/// The ids of the invariants whose probe passed since the last mutation under the root.
pub open spec fn satisfied_invariants_of(spec: ConstructSpec, events: Seq<RunEvent>) -> Seq<Seq<char>> {
    spec.invariants@.filter(satisfied_pred(events, spec.root@)).map_values(invariant_id())
}

/// A closed circuit: no required probe is missing or failing.
pub open spec fn closed_circuit(spec: ConstructSpec, events: Seq<RunEvent>) -> bool {
    &&& missing_probes_of(spec, events).len() == 0
    &&& failing_probes_of(spec, events).len() == 0
}

/// The construct was certified at some point of the log: some prefix of it
/// (the empty one and the whole log included) forms a closed circuit.
pub open spec fn ever_certified(spec: ConstructSpec, events: Seq<RunEvent>) -> bool {
    exists|k: int| 0 <= k <= events.len() && closed_circuit(spec, #[trigger] events.take(k))
}

/// The lifecycle state that the evaluation assigns: regressed when a required
/// probe fails after the construct was certified, active when one fails
/// otherwise, certified on a closed circuit, active once a build action or a
/// probe report is logged, and a draft before that.
pub open spec fn status_of(spec: ConstructSpec, events: Seq<RunEvent>) -> ConstructStatus {
    if failing_probes_of(spec, events).len() > 0 {
        if ever_certified(spec, events) {
            ConstructStatus::Regressed
        } else {
            ConstructStatus::Active
        }
    } else if missing_probes_of(spec, events).len() == 0 {
        ConstructStatus::Certified
    } else if last_mutation_seq(events, spec.root@) is Some || has_any_report(events) {
        ConstructStatus::Active
    } else {
        ConstructStatus::Draft
    }
}

/// The probe id named by a probe reference (`probe:<id>` or a bare id).
pub fn probe_id_from_ref(r: &String) -> (pid: String)
    ensures
        pid@ == probe_id_of(r@),
{
    let prefix = "probe:";
    proof {
        reveal_strlit("probe:");
    }
    assert(prefix@ == probe_ref_prefix());
    if str_starts_with(r.as_str(), prefix) {
        let n = r.as_str().unicode_len();
        owned(r.as_str().substring_char(6, n))
    } else {
        r.clone()
    }
}

/// Whether `path` lies under `root` (see `path_under_root`).
pub fn path_is_under(path: &str, root: &str) -> (b: bool)
    ensures
        b == path_under_root(path@, root@),
{
    let dot = ".";
    let slash = "/";
    proof {
        reveal_strlit(".");
        reveal_strlit("/");
    }
    if str_eq(root, dot) {
        assert(root@ == seq!['.']);
        return true;
    }
    assert(dot@ == seq!['.']);
    if str_eq(path, root) {
        return true;
    }
    let prefix = concat(root, slash);
    assert(prefix@ =~= root@.push('/'));
    str_starts_with(path, prefix.as_str())
}

/// Whether the event is a build action (`PatchApplied` or `ConfigEdited`)
/// that touches a path under `root`.
pub fn mutates_root(e: &RunEvent, root: &String) -> (b: bool)
    ensures
        b == is_mutation_under(*e, root@),
{
    let patch = "PatchApplied";
    let config = "ConfigEdited";
    proof {
        reveal_strlit("PatchApplied");
        reveal_strlit("ConfigEdited");
    }
    assert(patch@ == patch_applied_type());
    assert(config@ == config_edited_type());
    if !str_eq(e.event_type.as_str(), patch) && !str_eq(e.event_type.as_str(), config) {
        return false;
    }
    match &e.payload.touched_paths {
        None => false,
        Some(paths) => {
            let n = paths.len();
            for i in 0..n
                invariant
                    n == paths@.len(),
                    e.payload.touched_paths == Some(*paths),
                    is_build_event_type(e.event_type@),
                    forall|j: int| 0 <= j < i ==> !path_under_root(#[trigger] paths@[j]@, root@),
            {
                if path_is_under(paths[i].as_str(), root.as_str()) {
                    assert(path_under_root(e.payload.touched_paths->0@[i as int]@, root@));
                    return true;
                }
            }
            false
        },
    }
}

/// Whether the event reports a probe result.
pub fn reports_probe(e: &RunEvent) -> (b: bool)
    ensures
        b == is_probe_report(*e),
{
    let lit = "ProbeFinished";
    proof {
        reveal_strlit("ProbeFinished");
    }
    assert(lit@ == probe_finished_type());
    str_eq(e.event_type.as_str(), lit) && e.payload.probe_id.is_some() && e.payload.status.is_some()
}

/// The sequence number of the last of the first `upto` events that mutates
/// `root`, if any.
pub fn last_mutation(events: &Vec<RunEvent>, root: &String, upto: usize) -> (r: Option<u64>)
    requires
        upto <= events@.len(),
    ensures
        r == last_mutation_seq(events@.take(upto as int), root@),
{
    let mut r: Option<u64> = None;
    for i in 0..upto
        invariant
            upto <= events@.len(),
            r == last_mutation_seq(events@.take(i as int), root@),
    {
        assert(events@.take(i + 1).drop_last() =~= events@.take(i as int));
        if mutates_root(&events[i], root) {
            r = Some(events[i].seq);
        }
    }
    r
}

/// The position of the last report of probe `pid` among the first `upto` events, if any.
pub fn latest_report_index(events: &Vec<RunEvent>, pid: &String, upto: usize) -> (r: Option<usize>)
    requires
        upto <= events@.len(),
    ensures
        match r {
            None => latest_report(events@.take(upto as int), pid@) is None,
            Some(j) => j < upto && is_probe_report(events@[j as int])
                && latest_report(events@.take(upto as int), pid@) == Some(
                (events@[j as int].payload.status->0@, events@[j as int].seq),
            ),
        },
{
    let mut r: Option<usize> = None;
    for i in 0..upto
        invariant
            upto <= events@.len(),
            match r {
                None => latest_report(events@.take(i as int), pid@) is None,
                Some(j) => j < i && is_probe_report(events@[j as int]) && latest_report(
                    events@.take(i as int),
                    pid@,
                ) == Some((events@[j as int].payload.status->0@, events@[j as int].seq)),
            },
    {
        assert(events@.take(i + 1).drop_last() =~= events@.take(i as int));
        if reports_probe(&events[i]) {
            let matches = match &events[i].payload.probe_id {
                Some(p) => *p == *pid,
                None => false,
            };
            if matches {
                r = Some(i);
            }
        }
    }
    r
}

/// Whether any event reports a probe result.
pub fn any_report(events: &Vec<RunEvent>) -> (b: bool)
    ensures
        b == has_any_report(events@),
{
    let n = events.len();
    for i in 0..n
        invariant
            n == events@.len(),
            forall|j: int| 0 <= j < i ==> !is_probe_report(#[trigger] events@[j]),
    {
        if reports_probe(&events[i]) {
            return true;
        }
    }
    false
}

/// The missing and the failing required probes over the first `upto` events.
pub fn probe_lists(spec: &ConstructSpec, events: &Vec<RunEvent>, upto: usize) -> (r: (
    Vec<String>,
    Vec<String>,
))
    requires
        upto <= events@.len(),
    ensures
        r.0@.map_values(string_view()) == missing_probes_of(*spec, events@.take(upto as int)),
        r.1@.map_values(string_view()) == failing_probes_of(*spec, events@.take(upto as int)),
{
    let ghost root = spec.root@;
    let ghost log = events@.take(upto as int);
    let lms = last_mutation(events, &spec.root, upto);
    let pass = "pass";
    proof {
        reveal_strlit("pass");
    }
    assert(pass@ == pass_status());
    let mut failing_probes: Vec<String> = Vec::new();
    let mut missing_probes: Vec<String> = Vec::new();
    let required = &spec.acceptance.required_probes;
    let ghost ids = required_probe_ids(*spec);
    let n = required.len();
    for i in 0..n
        invariant
            n == required@.len(),
            upto <= events@.len(),
            log == events@.take(upto as int),
            required == &spec.acceptance.required_probes,
            ids == required_probe_ids(*spec),
            root == spec.root@,
            pass@ == pass_status(),
            lms == last_mutation_seq(log, root),
            missing_probes@.map_values(string_view()) == ids.take(i as int).filter(
                missing_pred(log, root),
            ),
            failing_probes@.map_values(string_view()) == ids.take(i as int).filter(
                failing_pred(log, root),
            ),
    {
        reveal(Seq::filter);
        assert(ids.take(i + 1).drop_last() =~= ids.take(i as int));
        let probe_id = probe_id_from_ref(&required[i]);
        assert(probe_id@ == ids[i as int]);
        match latest_report_index(events, &probe_id, upto) {
            Some(j) => {
                let fresh = match lms {
                    None => true,
                    Some(m) => events[j].seq > m,
                };
                if fresh {
                    let is_pass = match &events[j].payload.status {
                        Some(st) => str_eq(st.as_str(), pass),
                        None => false,
                    };
                    if !is_pass {
                        failing_probes.push(probe_id);
                    }
                } else {
                    missing_probes.push(probe_id);
                }
            },
            None => {
                missing_probes.push(probe_id);
            },
        }
        assert(missing_probes@.map_values(string_view()) =~= ids.take(i + 1).filter(
            missing_pred(log, root),
        ));
        assert(failing_probes@.map_values(string_view()) =~= ids.take(i + 1).filter(
            failing_pred(log, root),
        ));
    }
    assert(ids.take(n as int) =~= ids);
    (missing_probes, failing_probes)
}

/// Whether the construct was certified at some point of the log.
pub fn was_ever_certified(spec: &ConstructSpec, events: &Vec<RunEvent>) -> (b: bool)
    ensures
        b == ever_certified(*spec, events@),
{
    let n = events.len();
    let mut k: usize = 0;
    loop
        invariant
            n == events@.len(),
            k <= n,
            forall|j: int| 0 <= j < k ==> !closed_circuit(*spec, #[trigger] events@.take(j)),
        decreases n - k,
    {
        let (missing, failing) = probe_lists(spec, events, k);
        if missing.len() == 0 && failing.len() == 0 {
            assert(closed_circuit(*spec, events@.take(k as int)));
            return true;
        }
        if k == n {
            assert(!closed_circuit(*spec, events@.take(k as int)));
            return false;
        }
        k = k + 1;
    }
}

pub struct EvaluationEngine;

impl EvaluationEngine {
    /// Evaluates a construct against its run's event log (in log order).
    ///
    /// A required probe is missing when it has no report newer than the last
    /// build action (applied patch or configuration edit) under the
    /// construct's root, and failing when its newest report is newer but not a
    /// pass. The construct is certified when no required probe is missing or
    /// failing, and regressed when one fails after it was certified.
    pub fn evaluate(spec: &ConstructSpec, events: &Vec<RunEvent>) -> (res: EvaluateResult)
        ensures
            res.status == status_of(*spec, events@),
            res.missing_probes@.map_values(string_view()) == missing_probes_of(*spec, events@),
            res.failing_probes@.map_values(string_view()) == failing_probes_of(*spec, events@),
            res.satisfied_invariants@.map_values(string_view()) == satisfied_invariants_of(
                *spec,
                events@,
            ),
    {
        let ghost root = spec.root@;
        let n = events.len();
        assert(events@.take(n as int) =~= events@);
        let lms = last_mutation(events, &spec.root, n);
        let (missing_probes, failing_probes) = probe_lists(spec, events, n);
        let pass = "pass";
        proof {
            reveal_strlit("pass");
        }
        assert(pass@ == pass_status());

        let mut satisfied_invariants: Vec<String> = Vec::new();
        let invs = &spec.invariants;
        let m = invs.len();
        for i in 0..m
            invariant
                m == invs@.len(),
                n == events@.len(),
                invs == &spec.invariants,
                root == spec.root@,
                pass@ == pass_status(),
                lms == last_mutation_seq(events@, root),
                satisfied_invariants@.map_values(string_view()) == invs@.take(i as int).filter(
                    satisfied_pred(events@, root),
                ).map_values(invariant_id()),
        {
            reveal(Seq::filter);
            assert(invs@.take(i + 1).drop_last() =~= invs@.take(i as int));
            let probe_id = probe_id_from_ref(&invs[i].probe_ref);
            assert(events@.take(n as int) =~= events@);
            match latest_report_index(events, &probe_id, n) {
                Some(j) => {
                    let is_pass = match &events[j].payload.status {
                        Some(st) => str_eq(st.as_str(), pass),
                        None => false,
                    };
                    let fresh = match lms {
                        None => true,
                        Some(m) => events[j].seq > m,
                    };
                    if fresh && is_pass {
                        satisfied_invariants.push(invs[i].id.clone());
                    }
                },
                None => {},
            }
            let ghost f = invs@.take(i as int).filter(satisfied_pred(events@, root));
            let ghost g = invs@.take(i + 1).filter(satisfied_pred(events@, root));
            proof {
                if satisfied_pred(events@, root)(invs@[i as int]) {
                    assert(g == f.push(invs@[i as int]));
                    assert(g.map_values(invariant_id()) =~= f.map_values(invariant_id()).push(
                        invs@[i as int].id@,
                    ));
                } else {
                    assert(g == f);
                }
            }
            assert(satisfied_invariants@.map_values(string_view()) =~= g.map_values(
                invariant_id(),
            ));
        }
        assert(invs@.take(m as int) =~= invs@);

        let status = if failing_probes.len() > 0 {
            if was_ever_certified(spec, events) {
                ConstructStatus::Regressed
            } else {
                ConstructStatus::Active
            }
        } else if missing_probes.len() == 0 {
            ConstructStatus::Certified
        } else if lms.is_some() || any_report(events) {
            ConstructStatus::Active
        } else {
            ConstructStatus::Draft
        };
        EvaluateResult { status, missing_probes, failing_probes, satisfied_invariants }
    }
}

} // verus!

verus! {

/// A filter keeps nothing exactly when no element satisfies the predicate.
proof fn lemma_filter_empty_iff<A>(s: Seq<A>, p: spec_fn(A) -> bool)
    ensures
        s.filter(p).len() == 0 <==> forall|i: int| 0 <= i < s.len() ==> !p(#[trigger] s[i]),
    decreases s.len(),
{
    reveal(Seq::filter);
    if s.len() > 0 {
        lemma_filter_empty_iff(s.drop_last(), p);
        assert forall|i: int| 0 <= i < s.len() - 1 implies #[trigger] s.drop_last()[i] == s[i] by {}
        if s.filter(p).len() == 0 {
            assert(!p(s.last()));
            assert forall|i: int| 0 <= i < s.len() implies !p(#[trigger] s[i]) by {
                if i < s.len() - 1 {
                    assert(s.drop_last()[i] == s[i]);
                }
            }
        }
        if forall|i: int| 0 <= i < s.len() ==> !p(#[trigger] s[i]) {
            assert(!p(s[s.len() - 1]));
            assert forall|i: int| 0 <= i < s.drop_last().len() implies !p(#[trigger] s.drop_last()[i]) by {
                assert(s.drop_last()[i] == s[i]);
            }
        }
    }
}

/// A filter that every element passes keeps the whole sequence.
proof fn lemma_filter_all<A>(s: Seq<A>, p: spec_fn(A) -> bool)
    requires
        forall|i: int| 0 <= i < s.len() ==> p(#[trigger] s[i]),
    ensures
        s.filter(p) == s,
    decreases s.len(),
{
    reveal(Seq::filter);
    if s.len() > 0 {
        assert forall|i: int| 0 <= i < s.drop_last().len() implies p(#[trigger] s.drop_last()[i]) by {
            assert(s.drop_last()[i] == s[i]);
        }
        lemma_filter_all(s.drop_last(), p);
        assert(p(s[s.len() - 1]));
        assert(s.drop_last().push(s.last()) =~= s);
    }
}

/// Every report the log holds is no newer than its largest sequence number.
proof fn lemma_latest_report_from_log(events: Seq<RunEvent>, pid: Seq<char>, bound: u64)
    requires
        forall|i: int| 0 <= i < events.len() ==> (#[trigger] events[i]).seq <= bound,
    ensures
        latest_report(events, pid) matches Some((_, s)) ==> s <= bound,
    decreases events.len(),
{
    if events.len() > 0 {
        assert forall|i: int| 0 <= i < events.drop_last().len() implies (
        #[trigger] events.drop_last()[i]).seq <= bound by {
            assert(events.drop_last()[i] == events[i]);
        }
        lemma_latest_report_from_log(events.drop_last(), pid, bound);
        assert(events[events.len() - 1].seq <= bound);
    }
}

/// The last mutation of a log whose sequence numbers stay below `bound` is below it too.
proof fn lemma_last_mutation_below(events: Seq<RunEvent>, root: Seq<char>, bound: u64)
    requires
        forall|i: int| 0 <= i < events.len() ==> (#[trigger] events[i]).seq < bound,
    ensures
        last_mutation_seq(events, root) matches Some(m) ==> m < bound,
    decreases events.len(),
{
    if events.len() > 0 {
        assert forall|i: int| 0 <= i < events.drop_last().len() implies (
        #[trigger] events.drop_last()[i]).seq < bound by {
            assert(events.drop_last()[i] == events[i]);
        }
        lemma_last_mutation_below(events.drop_last(), root, bound);
        assert(events[events.len() - 1].seq < bound);
    }
}

/// Certification is exactly a closed circuit: the construct is certified if and
/// only if every required probe's newest report is a pass produced after the
/// last build action under the construct's root. It is regressed exactly when
/// a required probe fails and the construct was certified at some point of the
/// log, and the evaluation never reports it archived (archiving is an explicit
/// action, not an outcome of the log).
pub proof fn lemma_certified_iff_closed_circuit(spec: ConstructSpec, events: Seq<RunEvent>)
    ensures
        status_of(spec, events) == ConstructStatus::Certified <==> forall|i: int|
            0 <= i < required_probe_ids(spec).len() ==> probe_fresh_pass(
                events,
                spec.root@,
                #[trigger] required_probe_ids(spec)[i],
            ),
        status_of(spec, events) == ConstructStatus::Regressed <==> failing_probes_of(
            spec,
            events,
        ).len() > 0 && ever_certified(spec, events),
        status_of(spec, events) != ConstructStatus::Archived,
{
    let ids = required_probe_ids(spec);
    let root = spec.root@;
    lemma_filter_empty_iff(ids, missing_pred(events, root));
    lemma_filter_empty_iff(ids, failing_pred(events, root));
    if status_of(spec, events) == ConstructStatus::Certified {
        assert forall|i: int| 0 <= i < ids.len() implies probe_fresh_pass(events, root, #[trigger] ids[i]) by {
            assert(!missing_pred(events, root)(ids[i]));
            assert(!failing_pred(events, root)(ids[i]));
        }
    }
    if forall|i: int| 0 <= i < ids.len() ==> probe_fresh_pass(events, root, #[trigger] ids[i]) {
        assert forall|i: int| 0 <= i < ids.len() implies !missing_pred(events, root)(#[trigger] ids[i]) by {
            assert(probe_fresh_pass(events, root, ids[i]));
        }
        assert forall|i: int| 0 <= i < ids.len() implies !failing_pred(events, root)(#[trigger] ids[i]) by {
            assert(probe_fresh_pass(events, root, ids[i]));
        }
    }
}

/// Any build action (applied patch or configuration edit) under the
/// construct's root, appended after every event of the log, invalidates
/// certification: every required probe becomes missing, none is failing, and
/// a construct that requires any probe becomes active (a draft's first build
/// action makes it active; a certified construct is no longer certified).
pub proof fn lemma_mutation_under_root_invalidates(
    spec: ConstructSpec,
    events: Seq<RunEvent>,
    e: RunEvent,
)
    requires
        is_mutation_under(e, spec.root@),
        forall|i: int| 0 <= i < events.len() ==> (#[trigger] events[i]).seq <= e.seq,
    ensures
        missing_probes_of(spec, events.push(e)) == required_probe_ids(spec),
        failing_probes_of(spec, events.push(e)).len() == 0,
        required_probe_ids(spec).len() > 0 ==> status_of(spec, events.push(e))
            == ConstructStatus::Active,
{
    let ids = required_probe_ids(spec);
    let root = spec.root@;
    let log = events.push(e);
    assert(log.drop_last() =~= events);
    assert(last_mutation_seq(log, root) == Some(e.seq));
    assert(patch_applied_type().len() != probe_finished_type().len());
    assert(config_edited_type().len() != probe_finished_type().len());
    assert(!is_probe_report(e));
    assert forall|pid: Seq<char>| #[trigger] latest_report(log, pid) == latest_report(events, pid) by {}
    assert forall|i: int| 0 <= i < ids.len() implies missing_pred(log, root)(#[trigger] ids[i]) by {
        lemma_latest_report_from_log(events, ids[i], e.seq);
    }
    lemma_filter_all(ids, missing_pred(log, root));
    lemma_filter_empty_iff(ids, failing_pred(log, root));
    assert forall|i: int| 0 <= i < ids.len() implies !failing_pred(log, root)(#[trigger] ids[i]) by {
        lemma_latest_report_from_log(events, ids[i], e.seq);
    }
}

/// A failing report of a required probe, logged after a closed circuit (every
/// earlier event has a smaller sequence number), regresses the construct: the
/// probe is failing and the construct is regressed.
pub proof fn lemma_failure_after_certification_regresses(
    spec: ConstructSpec,
    events: Seq<RunEvent>,
    e: RunEvent,
    i: int,
)
    requires
        closed_circuit(spec, events),
        is_probe_report(e),
        e.payload.status->0@ != pass_status(),
        0 <= i < required_probe_ids(spec).len(),
        required_probe_ids(spec)[i] == e.payload.probe_id->0@,
        forall|j: int| 0 <= j < events.len() ==> (#[trigger] events[j]).seq < e.seq,
    ensures
        failing_probes_of(spec, events.push(e)).contains(e.payload.probe_id->0@),
        status_of(spec, events.push(e)) == ConstructStatus::Regressed,
{
    let ids = required_probe_ids(spec);
    let root = spec.root@;
    let log = events.push(e);
    let pid = e.payload.probe_id->0@;
    assert(log.drop_last() =~= events);
    assert(patch_applied_type().len() != probe_finished_type().len());
    assert(config_edited_type().len() != probe_finished_type().len());
    assert(!is_mutation_under(e, root));
    assert(last_mutation_seq(log, root) == last_mutation_seq(events, root));
    lemma_last_mutation_below(events, root, e.seq);
    assert(latest_report(log, pid) == Some((e.payload.status->0@, e.seq)));
    assert(failing_pred(log, root)(ids[i]));
    lemma_filter_empty_iff(ids, failing_pred(log, root));
    lemma_filter_contains(ids, failing_pred(log, root), i);
    assert(log.take(events.len() as int) =~= events);
    assert(closed_circuit(spec, log.take(events.len() as int)));
}

/// An element that passes the predicate is kept by the filter.
proof fn lemma_filter_contains<A>(s: Seq<A>, p: spec_fn(A) -> bool, i: int)
    requires
        0 <= i < s.len(),
        p(s[i]),
    ensures
        s.filter(p).contains(s[i]),
    decreases s.len(),
{
    reveal(Seq::filter);
    if i < s.len() - 1 {
        assert(s.drop_last()[i] == s[i]);
        lemma_filter_contains(s.drop_last(), p, i);
        let k = choose|k: int| 0 <= k < s.drop_last().filter(p).len() && s.drop_last().filter(p)[k] == s[i];
        if p(s.last()) {
            assert(s.filter(p)[k] == s[i]);
        }
    } else {
        assert(s.filter(p).last() == s[i]);
    }
}

/// An event that neither is a build action under the construct's root nor
/// reports a probe result (such as staged edits, patch creation, or a patch
/// outside the root) leaves the evaluation unchanged.
pub proof fn lemma_unrelated_event_keeps_evaluation(
    spec: ConstructSpec,
    events: Seq<RunEvent>,
    e: RunEvent,
)
    requires
        !is_mutation_under(e, spec.root@),
        !is_probe_report(e),
    ensures
        status_of(spec, events.push(e)) == status_of(spec, events),
        missing_probes_of(spec, events.push(e)) == missing_probes_of(spec, events),
        failing_probes_of(spec, events.push(e)) == failing_probes_of(spec, events),
        satisfied_invariants_of(spec, events.push(e)) == satisfied_invariants_of(spec, events),
{
    let root = spec.root@;
    let log = events.push(e);
    assert(log.drop_last() =~= events);
    assert(last_mutation_seq(log, root) == last_mutation_seq(events, root));
    assert forall|pid: Seq<char>| #[trigger] latest_report(log, pid) == latest_report(events, pid) by {}
    assert(missing_pred(log, root) =~= missing_pred(events, root));
    assert(failing_pred(log, root) =~= failing_pred(events, root));
    assert(satisfied_pred(log, root) =~= satisfied_pred(events, root));
    if has_any_report(log) {
        let i = choose|i: int| 0 <= i < log.len() && is_probe_report(#[trigger] log[i]);
        assert(events[i] == log[i]);
    }
    if has_any_report(events) {
        let i = choose|i: int| 0 <= i < events.len() && is_probe_report(#[trigger] events[i]);
        assert(log[i] == events[i]);
    }
    if ever_certified(spec, log) {
        let k = choose|k: int| 0 <= k <= log.len() && closed_circuit(spec, #[trigger] log.take(k));
        if k == log.len() {
            assert(log.take(k) =~= log);
            assert(events.take(events.len() as int) =~= events);
            assert(closed_circuit(spec, events.take(events.len() as int)));
        } else {
            assert(log.take(k) =~= events.take(k));
        }
    }
    if ever_certified(spec, events) {
        let k = choose|k: int| 0 <= k <= events.len() && closed_circuit(spec, #[trigger] events.take(k));
        assert(log.take(k) =~= events.take(k));
    }
}

/// A passing report of a probe, newer than the last build action under the
/// root, makes that probe's result fresh: it is neither missing nor failing.
pub proof fn lemma_fresh_pass_clears_probe(spec: ConstructSpec, events: Seq<RunEvent>, e: RunEvent)
    requires
        is_probe_report(e),
        e.payload.status->0@ == pass_status(),
        after_mutation(e.seq, last_mutation_seq(events, spec.root@)),
    ensures
        probe_fresh_pass(events.push(e), spec.root@, e.payload.probe_id->0@),
        !probe_missing(events.push(e), spec.root@, e.payload.probe_id->0@),
        !probe_failing(events.push(e), spec.root@, e.payload.probe_id->0@),
{
    let log = events.push(e);
    assert(log.drop_last() =~= events);
    assert(patch_applied_type().len() != probe_finished_type().len());
    assert(config_edited_type().len() != probe_finished_type().len());
    assert(!is_mutation_under(e, spec.root@));
    assert(last_mutation_seq(log, spec.root@) == last_mutation_seq(events, spec.root@));
}

} // verus!
