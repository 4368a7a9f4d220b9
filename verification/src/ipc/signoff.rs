//! Human sign-off of a construct's weekly cycle: where the evidence file goes,
//! which file names may be written, and the hash that binds the reviewed
//! artifacts to the sign-off.
use vstd::prelude::*;
use crate::engine::world::{concat, is_absolute_path, join, path_join};
use crate::ipc::commands::{HitlChecks, HitlSignoffWriteReq};
use crate::schemas::environment::clone_exact_vec;
use crate::storage::artifacts::{content_address, content_id};
use crate::text::{chars_of, owned, seq_ends_with, seq_starts_with, str_ends_with, str_starts_with};
use vstd::string::StringSliceAdditionalSpecFns;

verus! {

/// The directory of a cycle day: `<workspace>/<construct root>/days/<day>`.
pub open spec fn day_dir_of(workspace: Seq<char>, construct_root: Seq<char>, cycle_day: Seq<char>) -> Seq<char> {
    path_join(path_join(path_join(workspace, construct_root), "days"@), cycle_day)
}

/// The evidence file of a cycle day: `<day dir>/evidence/hitl_weekly.json`.
pub open spec fn evidence_path_of(workspace: Seq<char>, construct_root: Seq<char>, cycle_day: Seq<char>) -> Seq<char> {
    path_join(path_join(day_dir_of(workspace, construct_root, cycle_day), "evidence"@), "hitl_weekly.json"@)
}

/// The directory of a cycle day (see [`day_dir_of`]); reviewed artifacts are
/// named relative to it.
pub fn hitl_day_dir(workspace: &String, construct_root: &str, cycle_day: &str) -> (r: String)
    ensures
        r@ == day_dir_of(workspace@, construct_root@, cycle_day@),
{
    let root = join(workspace, construct_root);
    let days = join(&root, "days");
    join(&days, cycle_day)
}

/// The evidence file of a cycle day (see [`evidence_path_of`]).
pub fn hitl_evidence_path(workspace: &String, construct_root: &str, cycle_day: &str) -> (r: String)
    ensures
        r@ == evidence_path_of(workspace@, construct_root@, cycle_day@),
{
    let day = hitl_day_dir(workspace, construct_root, cycle_day);
    let evidence = join(&day, "evidence");
    join(&evidence, "hitl_weekly.json")
}

/// The end of a path component `comp` in a walk that stands `st.0` levels below
/// its start, never having risen above it while `st.1`: `..` goes up a level,
/// `.` and an empty component stay, any other name goes down a level.
pub open spec fn end_component(st: (int, bool), comp: Seq<char>) -> (int, bool) {
    let d = if comp == seq!['.', '.'] {
        st.0 - 1
    } else if comp == seq!['.'] || comp.len() == 0 {
        st.0
    } else {
        st.0 + 1
    };
    (d, st.1 && d >= 0)
}

/// The walk over the `/`-separated components of a relative path, resolved
/// lexically: the state after the completed components, and the component
/// read so far.
pub open spec fn path_walk(p: Seq<char>) -> ((int, bool), Seq<char>)
    decreases p.len(),
{
    if p.len() == 0 {
        ((0, true), Seq::empty())
    } else {
        let (st, comp) = path_walk(p.drop_last());
        if p.last() == '/' {
            (end_component(st, comp), Seq::empty())
        } else {
            (st, comp.push(p.last()))
        }
    }
}

/// The relative path, resolved lexically, never leaves the directory it starts in.
pub open spec fn resolves_inside(p: Seq<char>) -> bool {
    let (st, comp) = path_walk(p);
    end_component(st, comp).1
}

/// The sign-off location stays inside the workspace: neither the construct
/// root nor the cycle day is absolute, and the day directory
/// `<root>/days/<day>`, resolved lexically, never leaves the workspace.
pub open spec fn hitl_location_inside(construct_root: Seq<char>, cycle_day: Seq<char>) -> bool {
    &&& !is_absolute_path(construct_root)
    &&& !is_absolute_path(cycle_day)
    &&& resolves_inside(construct_root + "/days/"@ + cycle_day)
}

/// Whether the relative path, resolved lexically, stays inside (see [`resolves_inside`]).
pub fn path_resolves_inside(p: &str) -> (r: bool)
    ensures
        r == resolves_inside(p@),
{
    let cs = chars_of(p);
    let mut depth: usize = 0;
    let mut ok = true;
    let mut comp_len: usize = 0;
    let mut all_dots = true;
    let ghost mut comp: Seq<char> = Seq::empty();
    for i in 0..cs.len()
        invariant
            cs@ == p@,
            path_walk(p@.take(i as int)).1 == comp,
            ok == path_walk(p@.take(i as int)).0.1,
            ok ==> depth == path_walk(p@.take(i as int)).0.0,
            comp_len == comp.len(),
            all_dots == (forall|k: int| 0 <= k < comp.len() ==> #[trigger] comp[k] == '.'),
            comp_len <= i,
            depth <= i,
    {
        let c = cs[i];
        assert(p@.take(i + 1).drop_last() =~= p@.take(i as int));
        assert(p@.take(i + 1).last() == c);
        if c == '/' {
            proof {
                if comp_len == 2 && all_dots {
                    assert(comp =~= seq!['.', '.']);
                }
                if comp_len == 1 && all_dots {
                    assert(comp =~= seq!['.']);
                }
                if !(comp_len == 2 && all_dots) {
                    assert(comp != seq!['.', '.']) by {
                        if comp == seq!['.', '.'] {
                            assert(comp[0] == '.' && comp[1] == '.');
                        }
                    }
                }
                if !(comp_len == 1 && all_dots) {
                    assert(comp != seq!['.']) by {
                        if comp == seq!['.'] {
                            assert(comp[0] == '.');
                        }
                    }
                }
            }
            if ok {
                if comp_len == 2 && all_dots {
                    if depth == 0 {
                        ok = false;
                    } else {
                        depth = depth - 1;
                    }
                } else if (comp_len == 1 && all_dots) || comp_len == 0 {
                } else {
                    depth = depth + 1;
                }
            }
            comp_len = 0;
            all_dots = true;
            proof {
                comp = Seq::empty();
            }
        } else {
            comp_len = comp_len + 1;
            all_dots = all_dots && c == '.';
            proof {
                let old_comp = comp;
                comp = comp.push(c);
                assert forall|k: int| 0 <= k < old_comp.len() implies comp[k] == old_comp[k] by {}
                assert(comp[old_comp.len() as int] == c);
                if exists|k: int| 0 <= k < old_comp.len() && #[trigger] old_comp[k] != '.' {
                    let k = choose|k: int| 0 <= k < old_comp.len() && #[trigger] old_comp[k] != '.';
                    assert(comp[k] != '.');
                }
            }
        }
    }
    assert(p@.take(cs@.len() as int) =~= p@);
    proof {
        if comp_len == 2 && all_dots {
            assert(comp =~= seq!['.', '.']);
        }
        if comp_len == 1 && all_dots {
            assert(comp =~= seq!['.']);
        }
        if !(comp_len == 2 && all_dots) && comp == seq!['.', '.'] {
            assert(comp[0] == '.' && comp[1] == '.');
        }
        if !(comp_len == 1 && all_dots) && comp == seq!['.'] {
            assert(comp[0] == '.');
        }
    }
    if !ok {
        return false;
    }
    if comp_len == 2 && all_dots {
        depth > 0
    } else {
        true
    }
}

/// Whether the sign-off location stays inside the workspace (see
/// [`hitl_location_inside`]); checked before anything is read or written, so
/// that no file outside the workspace is touched even when it does not exist yet.
pub fn hitl_location_allowed(construct_root: &String, cycle_day: &String) -> (r: bool)
    ensures
        r == hitl_location_inside(construct_root@, cycle_day@),
{
    let rel = concat(construct_root.as_str(), "/days/");
    let rel = concat(rel.as_str(), cycle_day.as_str());
    let rc = chars_of(construct_root.as_str());
    let dc = chars_of(cycle_day.as_str());
    let root_abs = rc.len() > 0 && rc[0] == '/';
    let day_abs = dc.len() > 0 && dc[0] == '/';
    !root_abs && !day_abs && path_resolves_inside(rel.as_str())
}

/// Sign-off writes are restricted to files named `hitl*.json`.
pub open spec fn is_hitl_file_name(name: Seq<char>) -> bool {
    seq_starts_with(name, "hitl"@) && seq_ends_with(name, ".json"@)
}

/// Whether a sign-off may be written to a file of this name.
pub fn hitl_file_name_allowed(name: &str) -> (r: bool)
    ensures
        r == is_hitl_file_name(name@),
{
    str_starts_with(name, "hitl") && str_ends_with(name, ".json")
}

/// The bytes hashed for a sign-off: for each reviewed artifact in turn, the
/// UTF-8 bytes of its name followed by its contents.
pub open spec fn capsule_bytes(entries: Seq<(String, Vec<u8>)>) -> Seq<u8>
    decreases entries.len(),
{
    if entries.len() == 0 {
        Seq::empty()
    } else {
        capsule_bytes(entries.drop_last()) + vstd::utf8::encode_utf8(entries.last().0@) + entries.last().1@
    }
}

/// The capsule hash of the reviewed artifacts (given in the order they are
/// hashed, with their contents): the lowercase hex SHA-256 of [`capsule_bytes`].
pub fn capsule_hash(entries: &Vec<(String, Vec<u8>)>) -> (r: String)
    ensures
        r@ == content_id(capsule_bytes(entries@)),
{
    let mut bytes: Vec<u8> = Vec::new();
    let n = entries.len();
    for i in 0..n
        invariant
            n == entries@.len(),
            bytes@ == capsule_bytes(entries@.take(i as int)),
    {
        let name = entries[i].0.as_str().as_bytes();
        let ghost before = bytes@;
        for j in 0..name.len()
            invariant
                bytes@ == before + name@.take(j as int),
        {
            bytes.push(name[j]);
            assert(bytes@ =~= before + name@.take(j + 1));
        }
        assert(name@.take(name@.len() as int) =~= name@);
        let ghost mid = bytes@;
        let content = &entries[i].1;
        for j in 0..content.len()
            invariant
                bytes@ == mid + content@.take(j as int),
        {
            bytes.push(content[j]);
            assert(bytes@ =~= mid + content@.take(j + 1));
        }
        assert(content@.take(content@.len() as int) =~= content@);
        assert(entries@.take(i + 1).drop_last() =~= entries@.take(i as int));
    }
    assert(entries@.take(n as int) =~= entries@);
    content_address(bytes.as_slice())
}

/// The evidence document written for a sign-off.
#[derive(Debug, Clone, PartialEq, Eq)]
pub struct HitlEvidence {
    pub version: String,
    pub kind: String,
    pub reviewer: String,
    pub decision: String,
    pub timestamp_utc: String,
    pub checks: HitlChecks,
    pub notes: Option<String>,
    pub artifacts_reviewed: Vec<String>,
    pub capsule_hash: String,
}

/// The evidence of a sign-off request, stamped with the time it was written
/// (the current time, see [`crate::third_party::utc_now_rfc3339`]): a weekly
/// audit of version `2.1`, signed as `human`, carrying the request's decision,
/// checks, notes and artifact list (as given) and the capsule hash.
pub fn hitl_evidence_for(req: &HitlSignoffWriteReq, capsule_hash: String, timestamp_utc: String) -> (r: HitlEvidence)
    ensures
        r.timestamp_utc == timestamp_utc,
        r.version@ == "2.1"@,
        r.kind@ == "hitl_weekly_audit"@,
        r.reviewer@ == "human"@,
        r.decision == req.decision,
        r.checks == req.checks,
        r.notes == req.notes,
        r.artifacts_reviewed@ == req.artifacts_reviewed@,
        r.capsule_hash == capsule_hash,
{
    HitlEvidence {
        version: owned("2.1"),
        kind: owned("hitl_weekly_audit"),
        reviewer: owned("human"),
        decision: req.decision.clone(),
        timestamp_utc,
        checks: req.checks,
        notes: req.notes.clone(),
        artifacts_reviewed: clone_exact_vec(&req.artifacts_reviewed),
        capsule_hash,
    }
}

} // verus!
