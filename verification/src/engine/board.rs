//! The board snapshot and the updates that events make to it.
use vstd::prelude::*;
use crate::schemas::environment::{
    BoardEdge, BoardNode, BoardSnapshot, EnvironmentSpec, GateSpec, GateStatus, HpSpec, NodeKind, NodeStatus,
    ProbeStatus, SparkKind, SparkState, SparkStateView, TeamSpark, opt_str, strs,
};
use crate::text::owned;
use crate::storage::event_log::RunEvent;
use crate::text::str_eq;

verus! {

// ---------------------------------------------------------------------------
// Node status updates
// ---------------------------------------------------------------------------

/// A status with nothing set.
pub open spec fn empty_status() -> NodeStatus {
    NodeStatus { gate: None, probe: None, prerequisites: None, satisfied: None }
}

/// The node's status, or an empty one when it has none.
pub open spec fn status_or_empty(s: Option<NodeStatus>) -> NodeStatus {
    match s {
        Some(st) => st,
        None => empty_status(),
    }
}

/// The node with its probe status set (creating a status when absent).
pub open spec fn with_probe_status(n: BoardNode, p: ProbeStatus) -> BoardNode {
    BoardNode { status: Some(NodeStatus { probe: Some(p), ..status_or_empty(n.status) }), ..n }
}

/// The node with its gate status set (creating a status when absent).
pub open spec fn with_gate_status(n: BoardNode, g: GateStatus) -> BoardNode {
    BoardNode { status: Some(NodeStatus { gate: Some(g), ..status_or_empty(n.status) }), ..n }
}

/// The node marked satisfied (creating a status when absent).
pub open spec fn with_satisfied(n: BoardNode) -> BoardNode {
    BoardNode {
        status: Some(NodeStatus { satisfied: Some(true), ..status_or_empty(n.status) }),
        ..n
    }
}

pub fn set_probe_status(n: &mut BoardNode, p: ProbeStatus)
    ensures
        *final(n) == with_probe_status(*old(n), p),
{
    match &mut n.status {
        Some(st) => {
            st.probe = Some(p);
        },
        None => {
            n.status = Some(NodeStatus { gate: None, probe: Some(p), prerequisites: None, satisfied: None });
        },
    }
}

pub fn set_gate_status(n: &mut BoardNode, g: GateStatus)
    ensures
        *final(n) == with_gate_status(*old(n), g),
{
    match &mut n.status {
        Some(st) => {
            st.gate = Some(g);
        },
        None => {
            n.status = Some(NodeStatus { gate: Some(g), probe: None, prerequisites: None, satisfied: None });
        },
    }
}

pub fn set_satisfied(n: &mut BoardNode)
    ensures
        *final(n) == with_satisfied(*old(n)),
{
    match &mut n.status {
        Some(st) => {
            st.satisfied = Some(true);
        },
        None => {
            n.status = Some(NodeStatus { gate: None, probe: None, prerequisites: None, satisfied: Some(true) });
        },
    }
}

/// Every node with the given id gets the probe status.
pub open spec fn nodes_with_probe(nodes: Seq<BoardNode>, id: Seq<char>, p: ProbeStatus) -> Seq<BoardNode> {
    Seq::new(nodes.len(), |i: int| if nodes[i].id@ == id { with_probe_status(nodes[i], p) } else { nodes[i] })
}

/// Every node with the given id gets this gate status.
pub open spec fn nodes_with_gate(nodes: Seq<BoardNode>, id: Seq<char>, g: GateStatus) -> Seq<BoardNode> {
    Seq::new(nodes.len(), |i: int| if nodes[i].id@ == id { with_gate_status(nodes[i], g) } else { nodes[i] })
}

/// Every node with the given id is marked satisfied.
pub open spec fn nodes_satisfied(nodes: Seq<BoardNode>, id: Seq<char>) -> Seq<BoardNode> {
    Seq::new(nodes.len(), |i: int| if nodes[i].id@ == id { with_satisfied(nodes[i]) } else { nodes[i] })
}

/// The node guards one of the given gates.
pub open spec fn guards_one_of(n: BoardNode, gate_ids: Seq<Seq<char>>) -> bool {
    n.gate_id is Some && gate_ids.contains(n.gate_id->0@)
}

/// Every node guarding one of the given gates has its gate opened.
pub open spec fn nodes_open_gates(nodes: Seq<BoardNode>, gate_ids: Seq<Seq<char>>) -> Seq<BoardNode> {
    Seq::new(
        nodes.len(),
        |i: int|
            if guards_one_of(nodes[i], gate_ids) {
                with_gate_status(nodes[i], GateStatus::Open)
            } else {
                nodes[i]
            },
    )
}

pub fn mark_probe(nodes: &mut Vec<BoardNode>, id: &String, p: ProbeStatus)
    ensures
        final(nodes)@ == nodes_with_probe(old(nodes)@, id@, p),
{
    let n = nodes.len();
    for i in 0..n
        invariant
            n == old(nodes)@.len(),
            nodes@.len() == n,
            forall|j: int| 0 <= j < i ==> #[trigger] nodes@[j] == nodes_with_probe(old(nodes)@, id@, p)[j],
            forall|j: int| i <= j < n ==> #[trigger] nodes@[j] == old(nodes)@[j],
    {
        if nodes[i].id == *id {
            set_probe_status(&mut nodes[i], p);
        }
    }
    assert(nodes@ =~= nodes_with_probe(old(nodes)@, id@, p));
}

pub fn mark_gate(nodes: &mut Vec<BoardNode>, id: &String, g: GateStatus)
    ensures
        final(nodes)@ == nodes_with_gate(old(nodes)@, id@, g),
{
    let n = nodes.len();
    for i in 0..n
        invariant
            n == old(nodes)@.len(),
            nodes@.len() == n,
            forall|j: int| 0 <= j < i ==> #[trigger] nodes@[j] == nodes_with_gate(old(nodes)@, id@, g)[j],
            forall|j: int| i <= j < n ==> #[trigger] nodes@[j] == old(nodes)@[j],
    {
        if nodes[i].id == *id {
            set_gate_status(&mut nodes[i], g);
        }
    }
    assert(nodes@ =~= nodes_with_gate(old(nodes)@, id@, g));
}

pub fn mark_satisfied(nodes: &mut Vec<BoardNode>, id: &String)
    ensures
        final(nodes)@ == nodes_satisfied(old(nodes)@, id@),
{
    let n = nodes.len();
    for i in 0..n
        invariant
            n == old(nodes)@.len(),
            nodes@.len() == n,
            forall|j: int| 0 <= j < i ==> #[trigger] nodes@[j] == nodes_satisfied(old(nodes)@, id@)[j],
            forall|j: int| i <= j < n ==> #[trigger] nodes@[j] == old(nodes)@[j],
    {
        if nodes[i].id == *id {
            set_satisfied(&mut nodes[i]);
        }
    }
    assert(nodes@ =~= nodes_satisfied(old(nodes)@, id@));
}

/// Whether the list holds a string with the characters of `s`.
pub fn contains_str(list: &Vec<String>, s: &String) -> (r: bool)
    ensures
        r == strs(list@).contains(s@),
{
    let n = list.len();
    for i in 0..n
        invariant
            n == list@.len(),
            forall|j: int| 0 <= j < i ==> list@[j]@ != s@,
    {
        if list[i] == *s {
            assert(strs(list@)[i as int] == s@);
            return true;
        }
    }
    assert forall|j: int| 0 <= j < strs(list@).len() implies strs(list@)[j] != s@ by {
        assert(list@[j]@ != s@);
    }
    false
}

pub fn open_gates(nodes: &mut Vec<BoardNode>, gate_ids: &Vec<String>)
    ensures
        final(nodes)@ == nodes_open_gates(old(nodes)@, strs(gate_ids@)),
{
    let n = nodes.len();
    for i in 0..n
        invariant
            n == old(nodes)@.len(),
            nodes@.len() == n,
            forall|j: int| 0 <= j < i ==> #[trigger] nodes@[j] == nodes_open_gates(old(nodes)@, strs(gate_ids@))[j],
            forall|j: int| i <= j < n ==> #[trigger] nodes@[j] == old(nodes)@[j],
    {
        let guards = match &nodes[i].gate_id {
            Some(gid) => contains_str(gate_ids, gid),
            None => false,
        };
        if guards {
            set_gate_status(&mut nodes[i], GateStatus::Open);
        }
    }
    assert(nodes@ =~= nodes_open_gates(old(nodes)@, strs(gate_ids@)));
}

// ---------------------------------------------------------------------------
// Spark updates
// ---------------------------------------------------------------------------

/// The sparks as their views.
pub open spec fn spark_views(v: Seq<SparkState>) -> Seq<SparkStateView> {
    v.map_values(|s: SparkState| s@)
}

/// The position of the first spark with the given id.
pub open spec fn find_spark(sparks: Seq<SparkStateView>, id: Seq<char>) -> Option<int>
    decreases sparks.len(),
{
    if sparks.len() == 0 {
        None
    } else {
        match find_spark(sparks.drop_last(), id) {
            Some(i) => Some(i),
            None => if sparks.last().id == id {
                Some(sparks.len() - 1)
            } else {
                None
            },
        }
    }
}

/// The first spark with the id, when there is one, has that id and no earlier spark has it.
pub proof fn lemma_find_spark(sparks: Seq<SparkStateView>, id: Seq<char>)
    ensures
        match find_spark(sparks, id) {
            Some(i) => 0 <= i < sparks.len() && sparks[i].id == id && forall|j: int|
                0 <= j < i ==> sparks[j].id != id,
            None => forall|j: int| 0 <= j < sparks.len() ==> sparks[j].id != id,
        },
    decreases sparks.len(),
{
    if sparks.len() > 0 {
        let init = sparks.drop_last();
        lemma_find_spark(init, id);
        match find_spark(init, id) {
            Some(i) => {
                assert(init[i] == sparks[i]);
                assert forall|j: int| 0 <= j < i implies sparks[j].id != id by {
                    assert(init[j] == sparks[j]);
                }
            },
            None => {
                assert forall|j: int| 0 <= j < sparks.len() - 1 implies sparks[j].id != id by {
                    assert(init[j] == sparks[j]);
                }
            },
        }
    }
}

/// The position of the first spark with the given id.
pub fn find_spark_index(sparks: &Vec<SparkState>, id: &String) -> (r: Option<usize>)
    ensures
        match r {
            Some(i) => find_spark(spark_views(sparks@), id@) == Some(i as int) && i < sparks@.len()
                && sparks@[i as int].id@ == id@,
            None => find_spark(spark_views(sparks@), id@) is None,
        },
{
    let n = sparks.len();
    proof {
        lemma_find_spark(spark_views(sparks@), id@);
    }
    for i in 0..n
        invariant
            n == sparks@.len(),
            forall|j: int| 0 <= j < i ==> sparks@[j].id@ != id@,
    {
        if sparks[i].id == *id {
            proof {
                let v = spark_views(sparks@);
                lemma_find_spark(v, id@);
                lemma_find_spark_unique(v, id@, i as int);
            }
            return Some(i);
        }
    }
    proof {
        let v = spark_views(sparks@);
        if find_spark(v, id@) is Some {
            let k = find_spark(v, id@)->0;
            assert(v[k].id == sparks@[k].id@);
        }
    }
    None
}

proof fn lemma_find_spark_unique(sparks: Seq<SparkStateView>, id: Seq<char>, i: int)
    requires
        0 <= i < sparks.len(),
        sparks[i].id == id,
        forall|j: int| 0 <= j < i ==> sparks[j].id != id,
    ensures
        find_spark(sparks, id) == Some(i),
{
    lemma_find_spark(sparks, id);
}

/// `hp + delta` is an `i32`.
pub open spec fn hp_fits(hp: i32, delta: i32) -> bool {
    i32::MIN <= hp + delta <= i32::MAX
}

/// The spark after an HP change that never drops below zero.
pub open spec fn with_hp_delta(s: SparkStateView, delta: i32) -> SparkStateView {
    SparkStateView { hp: if s.hp + delta < 0 { 0 } else { (s.hp + delta) as i32 }, ..s }
}

/// The spark carrying the item, added only when not already carried.
pub open spec fn with_carried(s: SparkStateView, item: Seq<char>) -> SparkStateView {
    if s.carrying.contains(item) {
        s
    } else {
        SparkStateView { carrying: s.carrying.push(item), ..s }
    }
}

/// The spark standing at the given node.
pub open spec fn with_position(s: SparkStateView, node: Seq<char>) -> SparkStateView {
    SparkStateView { at_node_id: node, ..s }
}

/// The first spark with the given id has its HP changed (never below zero).
pub open spec fn sparks_hp(sparks: Seq<SparkStateView>, id: Seq<char>, delta: i32) -> Seq<SparkStateView> {
    match find_spark(sparks, id) {
        Some(i) => sparks.update(i, with_hp_delta(sparks[i], delta)),
        None => sparks,
    }
}

/// The first spark with the given id carries the item.
pub open spec fn sparks_carry(sparks: Seq<SparkStateView>, id: Seq<char>, item: Seq<char>) -> Seq<SparkStateView> {
    match find_spark(sparks, id) {
        Some(i) => sparks.update(i, with_carried(sparks[i], item)),
        None => sparks,
    }
}

/// The first spark with the given id stands at the node.
pub open spec fn sparks_move(sparks: Seq<SparkStateView>, id: Seq<char>, node: Seq<char>) -> Seq<SparkStateView> {
    match find_spark(sparks, id) {
        Some(i) => sparks.update(i, with_position(sparks[i], node)),
        None => sparks,
    }
}

/// The HP change of the first spark with the given id stays within `i32`.
pub open spec fn sparks_hp_fits(sparks: Seq<SparkStateView>, id: Seq<char>, delta: i32) -> bool {
    match find_spark(sparks, id) {
        Some(i) => hp_fits(sparks[i].hp, delta),
        None => true,
    }
}

proof fn lemma_spark_views_update(v: Seq<SparkState>, i: int, s: SparkState)
    requires
        0 <= i < v.len(),
    ensures
        spark_views(v.update(i, s)) == spark_views(v).update(i, s@),
{
    assert(spark_views(v.update(i, s)) =~= spark_views(v).update(i, s@));
}

pub fn change_hp(sparks: &mut Vec<SparkState>, id: &String, delta: i32)
    requires
        sparks_hp_fits(spark_views(old(sparks)@), id@, delta),
    ensures
        spark_views(final(sparks)@) == sparks_hp(spark_views(old(sparks)@), id@, delta),
{
    match find_spark_index(sparks, id) {
        Some(i) => {
            let ghost before = sparks@;
            let cur = sparks[i].hp;
            let sum = cur + delta;
            let hp = if sum < 0 { 0 } else { sum };
            let s = &mut sparks[i];
            s.hp = hp;
            proof {
                lemma_spark_views_update(before, i as int, sparks@[i as int]);
                assert(sparks@ == before.update(i as int, sparks@[i as int]));
                assert(sparks@[i as int]@ == with_hp_delta(spark_views(before)[i as int], delta));
            }
        },
        None => {},
    }
}

pub fn carry_item(sparks: &mut Vec<SparkState>, id: &String, item: &String)
    ensures
        spark_views(final(sparks)@) == sparks_carry(spark_views(old(sparks)@), id@, item@),
{
    match find_spark_index(sparks, id) {
        Some(i) => {
            let ghost before = sparks@;
            if !contains_str(&sparks[i].carrying, item) {
                let s = &mut sparks[i];
                s.carrying.push(item.clone());
                proof {
                    lemma_spark_views_update(before, i as int, sparks@[i as int]);
                    assert(sparks@ == before.update(i as int, sparks@[i as int]));
                    assert(strs(sparks@[i as int].carrying@) =~= strs(before[i as int].carrying@).push(item@));
                }
            }
        },
        None => {},
    }
}

/// Every DC spark receives the item (added only when not already carried).
pub open spec fn hand_to_dcs(sparks: Seq<SparkStateView>, item: Seq<char>) -> Seq<SparkStateView> {
    Seq::new(sparks.len(), |i: int| if sparks[i].kind == SparkKind::Dc { with_carried(sparks[i], item) } else { sparks[i] })
}

/// The sparks once a patch is created: the creating spark (the first with
/// the id) carries the patch item, and the item is handed off to every DC.
pub open spec fn sparks_after_patch(sparks: Seq<SparkStateView>, spark_id: Seq<char>, item_id: Seq<char>) -> Seq<SparkStateView> {
    hand_to_dcs(sparks_carry(sparks, spark_id, item_id), item_id)
}

/// Hands the item to every DC spark that does not carry it yet.
pub fn hand_item_to_dcs(sparks: &mut Vec<SparkState>, item: &String)
    ensures
        spark_views(final(sparks)@) == hand_to_dcs(spark_views(old(sparks)@), item@),
{
    let ghost s0 = spark_views(sparks@);
    let n = sparks.len();
    for i in 0..n
        invariant
            n == sparks@.len(),
            s0.len() == n,
            forall|j: int| 0 <= j < i ==> (#[trigger] spark_views(sparks@)[j]) == hand_to_dcs(s0, item@)[j],
            forall|j: int| i <= j < n ==> (#[trigger] spark_views(sparks@)[j]) == s0[j],
    {
        let is_dc = match sparks[i].kind {
            SparkKind::Dc => true,
            SparkKind::Ac => false,
        };
        assert(spark_views(sparks@)[i as int] == sparks@[i as int]@);
        assert(is_dc == (s0[i as int].kind == SparkKind::Dc));
        if is_dc && !contains_str(&sparks[i].carrying, item) {
            let ghost before = sparks@;
            let s = &mut sparks[i];
            s.carrying.push(item.clone());
            proof {
                lemma_spark_views_update(before, i as int, sparks@[i as int]);
                assert(sparks@ == before.update(i as int, sparks@[i as int]));
                assert(strs(sparks@[i as int].carrying@) =~= strs(before[i as int].carrying@).push(item@));
                assert(spark_views(sparks@)[i as int] == with_carried(s0[i as int], item@));
            }
        } else {
            assert(spark_views(sparks@)[i as int] == s0[i as int]);
            assert(hand_to_dcs(s0, item@)[i as int] == s0[i as int]);
        }
    }
    assert(spark_views(sparks@) =~= hand_to_dcs(s0, item@));
}

pub fn move_spark(sparks: &mut Vec<SparkState>, id: &String, node: &String)
    ensures
        spark_views(final(sparks)@) == sparks_move(spark_views(old(sparks)@), id@, node@),
{
    match find_spark_index(sparks, id) {
        Some(i) => {
            let ghost before = sparks@;
            let s = &mut sparks[i];
            s.at_node_id = node.clone();
            proof {
                lemma_spark_views_update(before, i as int, sparks@[i as int]);
                assert(sparks@ == before.update(i as int, sparks@[i as int]));
            }
        },
        None => {},
    }
}


/// The HP that unlocking a gate of this kind heals.
pub open spec fn heal_for(hp: HpSpec, gate_kind: Seq<char>) -> i32 {
    if gate_kind == "unit"@ || gate_kind == "fuse"@ {
        hp.heal.unlock_gate_unit
    } else if gate_kind == "integration"@ {
        hp.heal.unlock_gate_integration
    } else {
        hp.heal.unlock_gate_unit
    }
}

/// Every spark with the given id healed once per opened gate, in order.
pub open spec fn heal_all(sparks: Seq<SparkStateView>, id: Seq<char>, kinds: Seq<Seq<char>>, hp: HpSpec) -> Seq<SparkStateView>
    decreases kinds.len(),
{
    if kinds.len() == 0 {
        sparks
    } else {
        clamp_all(heal_all(sparks, id, kinds.drop_last(), hp), id, heal_for(hp, kinds.last()), hp.max)
    }
}

/// Every healing step stays within `i32`.
pub open spec fn heal_fits(sparks: Seq<SparkStateView>, id: Seq<char>, kinds: Seq<Seq<char>>, hp: HpSpec) -> bool
    decreases kinds.len(),
{
    if kinds.len() == 0 {
        true
    } else {
        heal_fits(sparks, id, kinds.drop_last(), hp) && clamp_all_fits(
            heal_all(sparks, id, kinds.drop_last(), hp),
            id,
            heal_for(hp, kinds.last()),
        )
    }
}

/// Clamping keeps the sparks and their ids.
pub proof fn lemma_clamp_all_keeps_ids(sparks: Seq<SparkStateView>, id: Seq<char>, d: i32, max: i32)
    ensures
        clamp_all(sparks, id, d, max).len() == sparks.len(),
        forall|i: int| 0 <= i < sparks.len() ==> (#[trigger] clamp_all(sparks, id, d, max)[i]).id == sparks[i].id,
{
}

/// Healing keeps the sparks and their ids.
pub proof fn lemma_heal_keeps_ids(sparks: Seq<SparkStateView>, id: Seq<char>, kinds: Seq<Seq<char>>, hp: HpSpec)
    ensures
        heal_all(sparks, id, kinds, hp).len() == sparks.len(),
        forall|i: int| 0 <= i < sparks.len() ==> (#[trigger] heal_all(sparks, id, kinds, hp)[i]).id == sparks[i].id,
    decreases kinds.len(),
{
    if kinds.len() > 0 {
        lemma_heal_keeps_ids(sparks, id, kinds.drop_last(), hp);
        lemma_clamp_all_keeps_ids(heal_all(sparks, id, kinds.drop_last(), hp), id, heal_for(hp, kinds.last()), hp.max);
    }
}

/// Healing that fits for a list of gate kinds fits for each prefix of it.
pub proof fn lemma_heal_fits_prefix(sparks: Seq<SparkStateView>, id: Seq<char>, kinds: Seq<Seq<char>>, hp: HpSpec, k: int)
    requires
        0 <= k <= kinds.len(),
        heal_fits(sparks, id, kinds, hp),
    ensures
        heal_fits(sparks, id, kinds.take(k), hp),
    decreases kinds.len() - k,
{
    if k < kinds.len() {
        assert(kinds.drop_last() =~= kinds.take(kinds.len() - 1));
        if k == kinds.len() - 1 {
            assert(kinds.take(k) =~= kinds.drop_last());
        } else {
            lemma_heal_fits_prefix(sparks, id, kinds.drop_last(), hp, k);
            assert(kinds.drop_last().take(k) =~= kinds.take(k));
        }
    } else {
        assert(kinds.take(k) =~= kinds);
    }
}

/// Two spark lists with the same ids agree on whether a spark has the id.
pub proof fn lemma_same_ids_has_spark(a: Seq<SparkStateView>, b: Seq<SparkStateView>, id: Seq<char>)
    requires
        a.len() == b.len(),
        forall|i: int| 0 <= i < a.len() ==> (#[trigger] a[i]).id == b[i].id,
    ensures
        has_spark(a, id) == has_spark(b, id),
{
    if has_spark(a, id) {
        let k = choose|k: int| 0 <= k < a.len() && #[trigger] a[k].id == id;
        assert(b[k].id == id);
    }
    if has_spark(b, id) {
        let k = choose|k: int| 0 <= k < b.len() && #[trigger] b[k].id == id;
        assert(a[k].id == id);
    }
}

/// The position of the first gate spec with the id.
pub open spec fn first_gate_with_id(gs: Seq<GateSpec>, id: Seq<char>) -> Option<int> {
    if exists|i: int| 0 <= i < gs.len() && #[trigger] gs[i].id@ == id {
        Some(choose|i: int| 0 <= i < gs.len() && #[trigger] gs[i].id@ == id && forall|j: int|
            0 <= j < i ==> gs[j].id@ != id)
    } else {
        None
    }
}

/// The position of the first gate spec with the id.
pub fn find_gate_index(gs: &Vec<GateSpec>, id: &String) -> (r: Option<usize>)
    ensures
        match r {
            Some(i) => first_gate_with_id(gs@, id@) == Some(i as int) && i < gs@.len(),
            None => first_gate_with_id(gs@, id@) is None,
        },
{
    for i in 0..gs.len()
        invariant
            forall|j: int| 0 <= j < i ==> gs@[j].id@ != id@,
    {
        if gs[i].id == *id {
            proof {
                let k = choose|k: int| 0 <= k < gs@.len() && #[trigger] gs@[k].id@ == id@ && forall|j: int|
                    0 <= j < k ==> gs@[j].id@ != id@;
                assert(k == i) by {
                    if k < i {
                        assert(gs@[k].id@ != id@);
                    } else if k > i {
                        assert(gs@[i as int].id@ != id@);
                    }
                }
            }
            return Some(i);
        }
    }
    None
}

/// The kinds of the gates with the given ids (the first spec with each id),
/// in order; an id that no gate spec has is skipped.
pub open spec fn opened_kinds(gates: Seq<GateSpec>, ids: Seq<Seq<char>>) -> Seq<Seq<char>>
    decreases ids.len(),
{
    if ids.len() == 0 {
        Seq::empty()
    } else {
        let rest = opened_kinds(gates, ids.drop_last());
        match first_gate_with_id(gates, ids.last()) {
            Some(k) => rest.push(gates[k].kind@),
            None => rest,
        }
    }
}

/// The kinds of the gates with the given ids (see [`opened_kinds`]).
pub fn kinds_of_gates(gates: &Vec<GateSpec>, ids: &Vec<String>) -> (r: Vec<String>)
    ensures
        strs(r@) == opened_kinds(gates@, strs(ids@)),
{
    let mut r: Vec<String> = Vec::new();
    for i in 0..ids.len()
        invariant
            strs(r@) == opened_kinds(gates@, strs(ids@).take(i as int)),
    {
        let ghost before = r@;
        assert(strs(ids@).take(i + 1).drop_last() =~= strs(ids@).take(i as int));
        assert(strs(ids@).take(i + 1).last() == ids@[i as int]@);
        match find_gate_index(gates, &ids[i]) {
            Some(k) => {
                r.push(gates[k].kind.clone());
                assert(strs(r@) =~= strs(before).push(gates@[k as int].kind@));
            },
            None => {},
        }
    }
    assert(strs(ids@).take(ids@.len() as int) =~= strs(ids@));
    r
}

/// Heals every spark with the id once per gate kind, in order, each time
/// keeping the HP within `0..=max`; `false` when a step would leave `i32`
/// (the sparks are then partly healed).
pub fn heal_sparks(sparks: &mut Vec<SparkState>, id: &String, kinds: &Vec<String>, hp: &HpSpec) -> (ok: bool)
    requires
        has_spark(spark_views(old(sparks)@), id@) ==> hp.max >= 0,
    ensures
        ok == heal_fits(spark_views(old(sparks)@), id@, strs(kinds@), *hp),
        ok ==> spark_views(final(sparks)@) == heal_all(spark_views(old(sparks)@), id@, strs(kinds@), *hp),
{
    let ghost s0 = spark_views(sparks@);
    let ghost ks = strs(kinds@);
    for k in 0..kinds.len()
        invariant
            ks == strs(kinds@),
            s0 == spark_views(old(sparks)@),
            has_spark(s0, id@) ==> hp.max >= 0,
            spark_views(sparks@) == heal_all(s0, id@, ks.take(k as int), *hp),
            heal_fits(s0, id@, ks.take(k as int), *hp),
    {
        let heal = if str_eq(kinds[k].as_str(), "unit") || str_eq(kinds[k].as_str(), "fuse") {
            hp.heal.unlock_gate_unit
        } else if str_eq(kinds[k].as_str(), "integration") {
            hp.heal.unlock_gate_integration
        } else {
            hp.heal.unlock_gate_unit
        };
        assert(ks.take(k + 1).drop_last() =~= ks.take(k as int));
        assert(ks.take(k + 1).last() == ks[k as int]);
        assert(heal == heal_for(*hp, ks[k as int]));
        let ghost prev = spark_views(sparks@);
        proof {
            lemma_heal_keeps_ids(s0, id@, ks.take(k as int), *hp);
            lemma_same_ids_has_spark(prev, s0, id@);
        }
        if !clamp_hp_all_checked(sparks, id, heal, hp.max) {
            proof {
                if heal_fits(s0, id@, ks, *hp) {
                    lemma_heal_fits_prefix(s0, id@, ks, *hp, k + 1);
                }
            }
            return false;
        }
    }
    assert(ks.take(kinds@.len() as int) =~= ks);
    true
}

// ---------------------------------------------------------------------------
// Replaying the event log
// ---------------------------------------------------------------------------

/// What the board holds that events change: its nodes, its sparks (as views),
/// and the failure signatures seen so far.
pub type BoardState = (Seq<BoardNode>, Seq<SparkStateView>, Seq<Seq<char>>);

/// The sparks after a logged probe result: every spark with the id has its HP
/// changed and kept within `0..=max`, the first one receives the evidence
/// item (when logged), then every spark with the id is healed once per opened
/// gate, by the kind of its gate spec.
pub open spec fn probe_sparks(
    env: EnvironmentSpec,
    sparks: Seq<SparkStateView>,
    spark_id: Seq<char>,
    delta: i32,
    evidence: Option<Seq<char>>,
    gate_ids: Seq<Seq<char>>,
) -> Seq<SparkStateView> {
    let s1 = clamp_all(sparks, spark_id, delta, env.hp.max);
    let s2 = match evidence {
        Some(ev) => push_first(s1, spark_id, ev),
        None => s1,
    };
    heal_all(s2, spark_id, opened_kinds(env.gates@, gate_ids), env.hp)
}

/// Every HP change of a logged probe result stays within `i32` (and the HP
/// bound is usable when the spark exists).
pub open spec fn probe_sparks_fit(
    env: EnvironmentSpec,
    sparks: Seq<SparkStateView>,
    spark_id: Seq<char>,
    delta: i32,
    evidence: Option<Seq<char>>,
    gate_ids: Seq<Seq<char>>,
) -> bool {
    let s1 = clamp_all(sparks, spark_id, delta, env.hp.max);
    let s2 = match evidence {
        Some(ev) => push_first(s1, spark_id, ev),
        None => s1,
    };
    &&& has_spark(sparks, spark_id) ==> env.hp.max >= 0
    &&& clamp_all_fits(sparks, spark_id, delta)
    &&& heal_fits(s2, spark_id, opened_kinds(env.gates@, gate_ids), env.hp)
}

/// The ids of the gates a logged probe result opened.
pub open spec fn logged_gate_ids(p: crate::storage::event_log::EventPayload) -> Seq<Seq<char>> {
    match p.opened_gate_ids {
        Some(g) => strs(g@),
        None => Seq::empty(),
    }
}

/// The effect of one logged event on the board of a run of `env`.
pub open spec fn event_step(env: EnvironmentSpec, st: BoardState, e: RunEvent) -> BoardState {
    let (nodes, sparks, hist) = st;
    let p = e.payload;
    let t = e.event_type@;
    if t == "ProbeFinished"@ {
        if p.probe_id is Some && p.status is Some {
            let status = p.status->0@;
            let hist2 = if status == "fail"@ && p.failure_signature is Some {
                hist.push(p.failure_signature->0@)
            } else {
                hist
            };
            let sparks2 = if p.spark_id is Some && p.hp_delta is Some {
                probe_sparks(env, sparks, p.spark_id->0@, p.hp_delta->0 as i32, opt_str(p.evidence_item_id), logged_gate_ids(p))
            } else {
                sparks
            };
            let outcome = if status == "pass"@ { ProbeStatus::Pass } else { ProbeStatus::Fail };
            let nodes2 = nodes_with_probe(nodes, p.probe_id->0@, outcome);
            let nodes3 = match p.opened_gate_ids {
                Some(g) => nodes_open_gates(nodes2, strs(g@)),
                None => nodes2,
            };
            (nodes3, sparks2, hist2)
        } else {
            st
        }
    } else if t == "RelayClosed"@ {
        match p.relay_id {
            Some(r) => (nodes_with_gate(nodes, r@, GateStatus::Open), sparks, hist),
            None => st,
        }
    } else if t == "PatchCreated"@ {
        if p.spark_id is Some && p.item_id is Some {
            (nodes, sparks_after_patch(sparks, p.spark_id->0@, p.item_id->0@), hist)
        } else {
            st
        }
    } else if t == "SparkMoved"@ {
        if p.spark_id is Some && p.to_node_id is Some {
            (nodes, sparks_move(sparks, p.spark_id->0@, p.to_node_id->0@), hist)
        } else {
            st
        }
    } else if t == "ObjectEnergized"@ {
        match p.object_id {
            Some(o) => (nodes_satisfied(nodes, o@), sparks, hist),
            None => st,
        }
    } else if t == "PolicyViolation"@ {
        if p.spark_id is Some && p.hp_delta is Some {
            (nodes, sparks_hp(sparks, p.spark_id->0@, p.hp_delta->0 as i32), hist)
        } else {
            st
        }
    } else {
        st
    }
}

/// The event's HP changes, if any, stay within `i32`.
pub open spec fn step_fits(env: EnvironmentSpec, sparks: Seq<SparkStateView>, e: RunEvent) -> bool {
    let p = e.payload;
    let t = e.event_type@;
    if t == "ProbeFinished"@ {
        p.probe_id is Some && p.status is Some && p.spark_id is Some && p.hp_delta is Some
            ==> probe_sparks_fit(env, sparks, p.spark_id->0@, p.hp_delta->0 as i32, opt_str(p.evidence_item_id), logged_gate_ids(p))
    } else if t == "PolicyViolation"@ {
        p.spark_id is Some && p.hp_delta is Some ==> sparks_hp_fits(sparks, p.spark_id->0@, p.hp_delta->0 as i32)
    } else {
        true
    }
}

/// The board after replaying the events in order.
pub open spec fn replay(env: EnvironmentSpec, st: BoardState, events: Seq<RunEvent>) -> BoardState
    decreases events.len(),
{
    if events.len() == 0 {
        st
    } else {
        event_step(env, replay(env, st, events.drop_last()), events.last())
    }
}

/// No event of the replay changes an HP beyond `i32`.
pub open spec fn replay_fits(env: EnvironmentSpec, st: BoardState, events: Seq<RunEvent>) -> bool
    decreases events.len(),
{
    if events.len() == 0 {
        true
    } else {
        replay_fits(env, st, events.drop_last()) && step_fits(env, replay(env, st, events.drop_last()).1, events.last())
    }
}

/// Replaying changes the sparks, and decides whether HPs stay within `i32`,
/// from the sparks alone: the nodes and the failure history play no part.
pub proof fn lemma_replay_sparks(env: EnvironmentSpec, a: BoardState, b: BoardState, events: Seq<RunEvent>)
    requires
        a.1 == b.1,
    ensures
        replay(env, a, events).1 == replay(env, b, events).1,
        replay_fits(env, a, events) == replay_fits(env, b, events),
    decreases events.len(),
{
    if events.len() > 0 {
        lemma_replay_sparks(env, a, b, events.drop_last());
    }
}

/// The board a run starts from, as replay sees it: the environment's nodes
/// (probes idle, gates locked), one spark per team member, no failures.
pub open spec fn initial_board_state(env: EnvironmentSpec) -> BoardState {
    (
        env.board.nodes@.map_values(|n: BoardNode| initial_node(n)),
        env.team.sparks@.map_values(|m: TeamSpark| initial_spark(env, m)),
        Seq::empty(),
    )
}

/// The largest sequence number among the events (0 for none).
pub open spec fn max_seq(events: Seq<RunEvent>) -> u64
    decreases events.len(),
{
    if events.len() == 0 {
        0
    } else {
        let m = max_seq(events.drop_last());
        if events.last().seq > m { events.last().seq } else { m }
    }
}

/// The board state that a snapshot and a failure history hold.
pub open spec fn board_state(snapshot: BoardSnapshot, history: Seq<String>) -> BoardState {
    (snapshot.nodes@, spark_views(snapshot.sparks@), strs(history))
}

/// The names of the logged event types differ from each other.
pub proof fn lemma_event_names_distinct()
    ensures
        "ProbeFinished"@ != "RelayClosed"@,
        "ProbeFinished"@ != "PatchCreated"@,
        "ProbeFinished"@ != "SparkMoved"@,
        "ProbeFinished"@ != "ObjectEnergized"@,
        "ProbeFinished"@ != "PolicyViolation"@,
        "RelayClosed"@ != "PatchCreated"@,
        "RelayClosed"@ != "SparkMoved"@,
        "RelayClosed"@ != "ObjectEnergized"@,
        "RelayClosed"@ != "PolicyViolation"@,
        "PatchCreated"@ != "SparkMoved"@,
        "PatchCreated"@ != "ObjectEnergized"@,
        "PatchCreated"@ != "PolicyViolation"@,
        "SparkMoved"@ != "ObjectEnergized"@,
        "SparkMoved"@ != "PolicyViolation"@,
        "ObjectEnergized"@ != "PolicyViolation"@,
{
    reveal_strlit("ProbeFinished");
    reveal_strlit("RelayClosed");
    reveal_strlit("PatchCreated");
    reveal_strlit("SparkMoved");
    reveal_strlit("ObjectEnergized");
    reveal_strlit("PolicyViolation");
    assert("ProbeFinished"@.len() != "RelayClosed"@.len());
    assert("ProbeFinished"@.len() != "PatchCreated"@.len());
    assert("ProbeFinished"@.len() != "SparkMoved"@.len());
    assert("ProbeFinished"@.len() != "ObjectEnergized"@.len());
    assert("ProbeFinished"@.len() != "PolicyViolation"@.len());
    assert("RelayClosed"@.len() != "PatchCreated"@.len());
    assert("RelayClosed"@.len() != "SparkMoved"@.len());
    assert("RelayClosed"@.len() != "ObjectEnergized"@.len());
    assert("RelayClosed"@.len() != "PolicyViolation"@.len());
    assert("PatchCreated"@.len() != "SparkMoved"@.len());
    assert("PatchCreated"@.len() != "ObjectEnergized"@.len());
    assert("PatchCreated"@.len() != "PolicyViolation"@.len());
    assert("SparkMoved"@.len() != "ObjectEnergized"@.len());
    assert("SparkMoved"@.len() != "PolicyViolation"@.len());
    assert("ObjectEnergized"@[0] != "PolicyViolation"@[0]);
}

/// Whether the HP change of the first spark with the id stays within `i32`.
fn hp_change_fits(sparks: &Vec<SparkState>, id: &String, delta: i32) -> (r: bool)
    ensures
        r == sparks_hp_fits(spark_views(sparks@), id@, delta),
{
    match find_spark_index(sparks, id) {
        Some(i) => {
            let sum = sparks[i].hp as i64 + delta as i64;
            i32::MIN as i64 <= sum && sum <= i32::MAX as i64
        },
        None => true,
    }
}

/// Applies a logged probe result to the sparks (see [`probe_sparks`]);
/// `false` when an HP change would leave `i32` (the sparks are then partly
/// updated).
fn apply_probe_sparks(
    env: &EnvironmentSpec,
    sparks: &mut Vec<SparkState>,
    id: &String,
    delta: i32,
    evidence: &Option<String>,
    gate_ids: &Vec<String>,
) -> (ok: bool)
    ensures
        ok == probe_sparks_fit(*env, spark_views(old(sparks)@), id@, delta, opt_str(*evidence), strs(gate_ids@)),
        ok ==> spark_views(final(sparks)@) == probe_sparks(*env, spark_views(old(sparks)@), id@, delta, opt_str(*evidence), strs(gate_ids@)),
{
    let ghost s0 = spark_views(sparks@);
    if !clamp_hp_all_checked(sparks, id, delta, env.hp.max) {
        return false;
    }
    let ghost s1 = spark_views(sparks@);
    match evidence {
        Some(ev) => {
            push_item_first(sparks, id, ev);
            proof {
                lemma_push_first_ids(s1, id@, ev@);
            }
        },
        None => {},
    }
    let ghost s2 = spark_views(sparks@);
    proof {
        lemma_clamp_all_keeps_ids(s0, id@, delta, env.hp.max);
        lemma_same_ids_has_spark(s0, s1, id@);
        lemma_same_ids_has_spark(s1, s2, id@);
    }
    let kinds = kinds_of_gates(&env.gates, gate_ids);
    heal_sparks(sparks, id, &kinds, &env.hp)
}

/// Applies one logged event to the board, as a replay does: probe results set
/// probe statuses, record the failure signature of a failed run, change HP (kept within
/// `0..=max`), give the evidence item, heal once per opened gate and open
/// gates; closed relays open; created patches are carried by their creator
/// and handed off to every DC; sparks move; objects are energized; policy
/// violations cost HP. Other events change nothing. `false` when an HP change
/// would leave `i32` (the board is then partly updated).
pub fn apply_event(env: &EnvironmentSpec, snapshot: &mut BoardSnapshot, failure_history: &mut Vec<String>, e: &RunEvent) -> (ok: bool)
    ensures
        ok == step_fits(*env, spark_views(old(snapshot).sparks@), *e),
        ok ==> board_state(*final(snapshot), final(failure_history)@) == event_step(
            *env,
            board_state(*old(snapshot), old(failure_history)@),
            *e,
        ),
        final(snapshot).run_id == old(snapshot).run_id,
        final(snapshot).edges == old(snapshot).edges,
{
    let p = &e.payload;
    let t = e.event_type.as_str();
    let ghost hist0 = failure_history@;
    proof {
        lemma_event_names_distinct();
    }
    if str_eq(t, "ProbeFinished") {
        match (&p.probe_id, &p.status) {
            (Some(probe_id), Some(status)) => {
                if str_eq(status.as_str(), "fail") {
                    match &p.failure_signature {
                        Some(sig) => {
                            failure_history.push(sig.clone());
                            assert(strs(failure_history@) =~= strs(hist0).push(sig@));
                        },
                        None => {},
                    }
                }
                match (&p.spark_id, p.hp_delta) {
                    (Some(sid), Some(d)) => {
                        let ids: Vec<String> = match &p.opened_gate_ids {
                            Some(g) => crate::schemas::environment::clone_exact_vec(g),
                            None => Vec::new(),
                        };
                        assert(strs(ids@) == logged_gate_ids(*p));
                        if !apply_probe_sparks(env, &mut snapshot.sparks, sid, d as i32, &p.evidence_item_id, &ids) {
                            return false;
                        }
                    },
                    _ => {},
                }
                let outcome = if str_eq(status.as_str(), "pass") {
                    ProbeStatus::Pass
                } else {
                    ProbeStatus::Fail
                };
                mark_probe(&mut snapshot.nodes, probe_id, outcome);
                match &p.opened_gate_ids {
                    Some(g) => {
                        open_gates(&mut snapshot.nodes, g);
                    },
                    None => {},
                }
            },
            _ => {},
        }
    } else if str_eq(t, "RelayClosed") {
        match &p.relay_id {
            Some(r) => {
                mark_gate(&mut snapshot.nodes, r, GateStatus::Open);
            },
            None => {},
        }
    } else if str_eq(t, "PatchCreated") {
        match (&p.spark_id, &p.item_id) {
            (Some(sid), Some(item)) => {
                carry_item(&mut snapshot.sparks, sid, item);
                hand_item_to_dcs(&mut snapshot.sparks, item);
            },
            _ => {},
        }
    } else if str_eq(t, "SparkMoved") {
        match (&p.spark_id, &p.to_node_id) {
            (Some(sid), Some(to)) => {
                move_spark(&mut snapshot.sparks, sid, to);
            },
            _ => {},
        }
    } else if str_eq(t, "ObjectEnergized") {
        match &p.object_id {
            Some(o) => {
                mark_satisfied(&mut snapshot.nodes, o);
            },
            None => {},
        }
    } else if str_eq(t, "PolicyViolation") {
        match (&p.spark_id, p.hp_delta) {
            (Some(sid), Some(d)) => {
                if !hp_change_fits(&snapshot.sparks, sid, d as i32) {
                    return false;
                }
                change_hp(&mut snapshot.sparks, sid, d as i32);
            },
            _ => {},
        }
    }
    true
}

proof fn lemma_replay_fits_prefix(env: EnvironmentSpec, st: BoardState, events: Seq<RunEvent>, k: int)
    requires
        0 <= k <= events.len(),
        replay_fits(env, st, events),
    ensures
        replay_fits(env, st, events.take(k)),
    decreases events.len() - k,
{
    if k < events.len() {
        assert(events.drop_last() =~= events.take(events.len() - 1));
        if k == events.len() - 1 {
            assert(events.take(k) =~= events.drop_last());
        } else {
            lemma_replay_fits_prefix(env, st, events.drop_last(), k);
            assert(events.drop_last().take(k) =~= events.take(k));
        }
    } else {
        assert(events.take(k) =~= events);
    }
}

/// Replays the log onto the board of a run of `env` in order and returns the
/// largest sequence number seen; `None` when some event would change an HP
/// beyond `i32` (the board is then left partly updated).
pub fn replay_events(
    env: &EnvironmentSpec,
    snapshot: &mut BoardSnapshot,
    failure_history: &mut Vec<String>,
    events: &Vec<RunEvent>,
) -> (r: Option<u64>)
    ensures
        r is Some <==> replay_fits(*env, board_state(*old(snapshot), old(failure_history)@), events@),
        r matches Some(m) ==> m == max_seq(events@) && board_state(
            *final(snapshot),
            final(failure_history)@,
        ) == replay(*env, board_state(*old(snapshot), old(failure_history)@), events@),
        final(snapshot).run_id == old(snapshot).run_id,
        final(snapshot).edges == old(snapshot).edges,
{
    let ghost st0 = board_state(*snapshot, failure_history@);
    let mut max: u64 = 0;
    let n = events.len();
    for i in 0..n
        invariant
            n == events@.len(),
            st0 == board_state(*old(snapshot), old(failure_history)@),
            replay_fits(*env, st0, events@.take(i as int)),
            board_state(*snapshot, failure_history@) == replay(*env, st0, events@.take(i as int)),
            max == max_seq(events@.take(i as int)),
            snapshot.run_id == old(snapshot).run_id,
            snapshot.edges == old(snapshot).edges,
    {
        assert(events@.take(i + 1).drop_last() =~= events@.take(i as int));
        assert(events@.take(i + 1).last() == events@[i as int]);
        if !apply_event(env, snapshot, failure_history, &events[i]) {
            proof {
                if replay_fits(*env, st0, events@) {
                    lemma_replay_fits_prefix(*env, st0, events@, i + 1);
                }
            }
            return None;
        }
        if events[i].seq > max {
            max = events[i].seq;
        }
    }
    assert(events@.take(n as int) =~= events@);
    Some(max)
}


// ---------------------------------------------------------------------------
// The initial board of a run
// ---------------------------------------------------------------------------

/// A node as it starts a run: probes idle, fuses and relays locked.
pub open spec fn initial_node(n: BoardNode) -> BoardNode {
    match n.kind {
        NodeKind::Probe => with_probe_status(n, ProbeStatus::Idle),
        NodeKind::Fuse | NodeKind::Relay => with_gate_status(n, GateStatus::Locked),
        _ => n,
    }
}

/// Where every spark starts: the first node of the board, or `start` for an empty board.
pub open spec fn start_node_id(env: EnvironmentSpec) -> Seq<char> {
    if env.board.nodes@.len() > 0 {
        env.board.nodes@[0].id@
    } else {
        "start"@
    }
}

/// A team member as it starts a run.
pub open spec fn initial_spark(env: EnvironmentSpec, m: TeamSpark) -> SparkStateView {
    SparkStateView {
        id: m.id@,
        kind: m.kind,
        hp: env.hp.start,
        carrying: Seq::empty(),
        at_node_id: start_node_id(env),
        on_edge_id: None,
        t: None,
    }
}

/// The board a run starts from: the environment's nodes (probes idle, gates
/// locked) and edges, and one spark per team member at full starting HP on the
/// first node.
pub fn initial_snapshot(run_id: &str, env: &EnvironmentSpec) -> (snap: BoardSnapshot)
    ensures
        snap.run_id@ == run_id@,
        snap.nodes@.len() == env.board.nodes@.len(),
        forall|i: int|
            0 <= i < snap.nodes@.len() ==> (#[trigger] snap.nodes@[i])@ == initial_node(
                env.board.nodes@[i],
            )@,
        snap.edges@.len() == env.board.edges@.len(),
        forall|i: int|
            0 <= i < snap.edges@.len() ==> (#[trigger] snap.edges@[i])@ == env.board.edges@[i]@,
        spark_views(snap.sparks@) == env.team.sparks@.map_values(
            |m: TeamSpark| initial_spark(*env, m),
        ),
{
    let mut nodes: Vec<BoardNode> = Vec::new();
    let src = &env.board.nodes;
    for i in 0..src.len()
        invariant
            src == &env.board.nodes,
            nodes@.len() == i,
            forall|j: int| 0 <= j < i ==> (#[trigger] nodes@[j])@ == initial_node(src@[j])@,
    {
        let mut n = src[i].clone();
        match n.kind {
            NodeKind::Probe => set_probe_status(&mut n, ProbeStatus::Idle),
            NodeKind::Fuse | NodeKind::Relay => set_gate_status(&mut n, GateStatus::Locked),
            _ => {},
        }
        nodes.push(n);
    }
    let mut edges: Vec<BoardEdge> = Vec::new();
    let esrc = &env.board.edges;
    for i in 0..esrc.len()
        invariant
            esrc == &env.board.edges,
            edges@.len() == i,
            forall|j: int| 0 <= j < i ==> (#[trigger] edges@[j])@ == esrc@[j]@,
    {
        edges.push(esrc[i].clone());
    }
    let start = if env.board.nodes.len() > 0 {
        env.board.nodes[0].id.clone()
    } else {
        owned("start")
    };
    let mut sparks: Vec<SparkState> = Vec::new();
    let team = &env.team.sparks;
    for i in 0..team.len()
        invariant
            team == &env.team.sparks,
            start@ == start_node_id(*env),
            spark_views(sparks@) == team@.take(i as int).map_values(
                |m: TeamSpark| initial_spark(*env, m),
            ),
    {
        let s = SparkState {
            id: team[i].id.clone(),
            kind: team[i].kind,
            hp: env.hp.start,
            carrying: Vec::new(),
            at_node_id: start.clone(),
            on_edge_id: None,
            t: None,
        };
        let ghost before = sparks@;
        sparks.push(s);
        proof {
            assert(strs(s.carrying@) =~= Seq::<Seq<char>>::empty());
            assert(spark_views(sparks@) =~= spark_views(before).push(s@));
            assert(team@.take(i + 1) =~= team@.take(i as int).push(team@[i as int]));
            assert(team@.take(i + 1).map_values(|m: TeamSpark| initial_spark(*env, m))
                =~= team@.take(i as int).map_values(|m: TeamSpark| initial_spark(*env, m)).push(
                initial_spark(*env, team@[i as int]),
            ));
        }
    }
    assert(team@.take(team@.len() as int) =~= team@);
    BoardSnapshot { run_id: owned(run_id), nodes, edges, sparks }
}


// ---------------------------------------------------------------------------
// Visibility
// ---------------------------------------------------------------------------

/// The node that the edge leads to from `u`: its target when it starts at
/// `u`, its source when it is undirected and ends at `u`.
pub open spec fn edge_neighbor(e: BoardEdge, u: Seq<char>) -> Option<Seq<char>> {
    if e.from.node_id@ == u {
        Some(e.to.node_id@)
    } else if e.to.node_id@ == u && !e.directed {
        Some(e.from.node_id@)
    } else {
        None
    }
}

/// Some edge leads from `u` to `v`.
pub open spec fn adjacent(edges: Seq<BoardEdge>, u: Seq<char>, v: Seq<char>) -> bool {
    exists|b: int| 0 <= b < edges.len() && #[trigger] edge_neighbor(edges[b], u) == Some(v)
}

/// `v` is in `prev` or one step from a node of `prev`.
pub open spec fn one_step_from(edges: Seq<BoardEdge>, prev: Set<Seq<char>>, v: Seq<char>) -> bool {
    prev.contains(v) || exists|u: Seq<char>| #[trigger] prev.contains(u) && adjacent(edges, u, v)
}

/// The ids at most `k` steps from `start`.
pub open spec fn within_set(edges: Seq<BoardEdge>, start: Seq<char>, k: nat) -> Set<Seq<char>>
    decreases k,
{
    if k == 0 {
        set![start]
    } else {
        Set::new(|v: Seq<char>| one_step_from(edges, within_set(edges, start, (k - 1) as nat), v))
    }
}

/// `v` is at most `k` steps from `start`.
pub open spec fn within(edges: Seq<BoardEdge>, start: Seq<char>, k: nat, v: Seq<char>) -> bool {
    within_set(edges, start, k).contains(v)
}

proof fn lemma_within_step(edges: Seq<BoardEdge>, start: Seq<char>, k1: nat, u: Seq<char>, v: Seq<char>)
    requires
        k1 > 0,
        within(edges, start, (k1 - 1) as nat, u),
        adjacent(edges, u, v),
    ensures
        within(edges, start, k1, v),
{
    assert(one_step_from(edges, within_set(edges, start, (k1 - 1) as nat), v));
}

proof fn lemma_within_unfold(edges: Seq<BoardEdge>, start: Seq<char>, k1: nat, v: Seq<char>)
    requires
        k1 > 0,
        within(edges, start, k1, v),
    ensures
        within(edges, start, (k1 - 1) as nat, v) || exists|u: Seq<char>|
            #[trigger] within(edges, start, (k1 - 1) as nat, u) && adjacent(edges, u, v),
{
    let prev = within_set(edges, start, (k1 - 1) as nat);
    assert(one_step_from(edges, prev, v));
    if !prev.contains(v) {
        let u = choose|u: Seq<char>| #[trigger] prev.contains(u) && adjacent(edges, u, v);
        assert(within(edges, start, (k1 - 1) as nat, u));
    }
}

fn neighbor_of(e: &BoardEdge, u: &String) -> (r: Option<String>)
    ensures
        opt_str(r) == edge_neighbor(*e, u@),
{
    if e.from.node_id == *u {
        Some(e.to.node_id.clone())
    } else if e.to.node_id == *u && !e.directed {
        Some(e.from.node_id.clone())
    } else {
        None
    }
}

/// The ids of the nodes at most `max_dist` steps from `start` (including
/// `start` itself), following edges forwards and undirected edges both ways.
pub fn find_visible_node_ids(edges: &Vec<BoardEdge>, start: &String, max_dist: u32) -> (r: Vec<String>)
    ensures
        forall|v: Seq<char>| #[trigger] strs(r@).contains(v) <==> within(edges@, start@, max_dist as nat, v),
        strs(r@).no_duplicates(),
{
    let mut visible: Vec<String> = Vec::new();
    visible.push(start.clone());
    proof {
        assert(strs(visible@) =~= seq![start@]);
        assert forall|v: Seq<char>| #[trigger] strs(visible@).contains(v) <==> within(edges@, start@, 0, v) by {
            if v == start@ {
                assert(strs(visible@)[0] == v);
            }
            assert(within_set(edges@, start@, 0) == set![start@]);
        }
    }
    for k in 0..max_dist
        invariant
            forall|v: Seq<char>| #[trigger] strs(visible@).contains(v) <==> within(edges@, start@, k as nat, v),
            strs(visible@).no_duplicates(),
    {
        let base = visible.clone();
        assert(strs(base@) =~= strs(visible@));
        let nb = base.len();
        let ne = edges.len();
        for a in 0..nb
            invariant
                nb == base@.len(),
                ne == edges@.len(),
                forall|v: Seq<char>| #[trigger] strs(base@).contains(v) <==> within(edges@, start@, k as nat, v),
                forall|v: Seq<char>| #[trigger] strs(visible@).contains(v) ==> within(edges@, start@, (k + 1) as nat, v),
                strs(visible@).no_duplicates(),
                forall|v: Seq<char>| strs(base@).contains(v) ==> #[trigger] strs(visible@).contains(v),
                forall|a2: int, b: int|
                    0 <= a2 < a && 0 <= b < ne && #[trigger] edge_neighbor(edges@[b], base@[a2]@) is Some
                        ==> strs(visible@).contains(edge_neighbor(edges@[b], base@[a2]@)->0),
        {
            for b in 0..ne
                invariant
                    nb == base@.len(),
                    ne == edges@.len(),
                    0 <= a < nb,
                    forall|v: Seq<char>| #[trigger] strs(base@).contains(v) <==> within(edges@, start@, k as nat, v),
                    forall|v: Seq<char>| #[trigger] strs(visible@).contains(v) ==> within(edges@, start@, (k + 1) as nat, v),
                    strs(visible@).no_duplicates(),
                    forall|v: Seq<char>| strs(base@).contains(v) ==> #[trigger] strs(visible@).contains(v),
                    forall|a2: int, b2: int|
                        0 <= a2 < a && 0 <= b2 < ne && #[trigger] edge_neighbor(edges@[b2], base@[a2]@) is Some
                            ==> strs(visible@).contains(edge_neighbor(edges@[b2], base@[a2]@)->0),
                    forall|b2: int|
                        0 <= b2 < b && #[trigger] edge_neighbor(edges@[b2], base@[a as int]@) is Some
                            ==> strs(visible@).contains(edge_neighbor(edges@[b2], base@[a as int]@)->0),
            {
                match neighbor_of(&edges[b], &base[a]) {
                    Some(next) => {
                        proof {
                            let u = base@[a as int]@;
                            assert(strs(base@)[a as int] == u);
                            assert(strs(base@).contains(u));
                            assert(within(edges@, start@, k as nat, u));
                            assert(edge_neighbor(edges@[b as int], u) == Some(next@));
                            assert(adjacent(edges@, u, next@));
                            lemma_within_step(edges@, start@, (k + 1) as nat, u, next@);
                            assert(within(edges@, start@, (k + 1) as nat, next@));
                        }
                        if !contains_str(&visible, &next) {
                            let ghost before = visible@;
                            visible.push(next);
                            proof {
                                assert(strs(visible@) =~= strs(before).push(next@));
                                assert forall|v: Seq<char>| #[trigger] strs(visible@).contains(v) implies within(edges@, start@, (k + 1) as nat, v) by {
                                    if v != next@ {
                                        let j = choose|j: int| 0 <= j < strs(visible@).len() && strs(visible@)[j] == v;
                                        assert(strs(before)[j] == v);
                                        assert(strs(before).contains(v));
                                    }
                                }
                                assert forall|v: Seq<char>| strs(before).contains(v) implies #[trigger] strs(visible@).contains(v) by {
                                    let j = choose|j: int| 0 <= j < strs(before).len() && strs(before)[j] == v;
                                    assert(strs(visible@)[j] == v);
                                }
                                assert(strs(visible@)[strs(visible@).len() - 1] == next@);
                                assert forall|x: int, y: int| 0 <= x < y < strs(visible@).len() implies strs(visible@)[x] != strs(visible@)[y] by {
                                    if y == strs(visible@).len() - 1 {
                                        assert(strs(before)[x] == strs(visible@)[x]);
                                    } else {
                                        assert(strs(before)[x] == strs(visible@)[x]);
                                        assert(strs(before)[y] == strs(visible@)[y]);
                                    }
                                }
                            }
                        }
                    },
                    None => {},
                }
            }
        }
        proof {
            assert forall|v: Seq<char>| within(edges@, start@, (k + 1) as nat, v) implies #[trigger] strs(visible@).contains(v) by {
                lemma_within_unfold(edges@, start@, (k + 1) as nat, v);
                if within(edges@, start@, k as nat, v) {
                    assert(strs(base@).contains(v));
                } else {
                    let u = choose|u: Seq<char>| #[trigger] within(edges@, start@, k as nat, u) && adjacent(edges@, u, v);
                    assert(strs(base@).contains(u));
                    let a2 = choose|a2: int| 0 <= a2 < strs(base@).len() && strs(base@)[a2] == u;
                    let b = choose|b: int| 0 <= b < edges@.len() && #[trigger] edge_neighbor(edges@[b], u) == Some(v);
                    assert(base@[a2]@ == u);
                    assert(edge_neighbor(edges@[b], base@[a2]@) is Some);
                    assert(strs(visible@).contains(edge_neighbor(edges@[b], base@[a2]@)->0));
                }
            }
        }
    }
    visible
}


// ---------------------------------------------------------------------------
// HP changes kept within bounds, and de-duplication of changed nodes
// ---------------------------------------------------------------------------

/// `hp + delta`, kept within `0..=max`.
pub open spec fn clamp_hp(hp: i32, delta: i32, max: i32) -> i32 {
    let x = hp + delta;
    if x < 0 {
        0
    } else if x > max {
        max
    } else {
        x as i32
    }
}

/// Every spark with the given id has its HP changed and kept within `0..=max`.
pub open spec fn clamp_all(sparks: Seq<SparkStateView>, id: Seq<char>, delta: i32, max: i32) -> Seq<SparkStateView> {
    Seq::new(
        sparks.len(),
        |i: int|
            if sparks[i].id == id {
                SparkStateView { hp: clamp_hp(sparks[i].hp, delta, max), ..sparks[i] }
            } else {
                sparks[i]
            },
    )
}

/// The HP change of every spark with the given id stays within `i32`.
pub open spec fn clamp_all_fits(sparks: Seq<SparkStateView>, id: Seq<char>, delta: i32) -> bool {
    forall|i: int| 0 <= i < sparks.len() && sparks[i].id == id ==> hp_fits(#[trigger] sparks[i].hp, delta)
}

/// Some spark has the given id.
pub open spec fn has_spark(sparks: Seq<SparkStateView>, id: Seq<char>) -> bool {
    exists|i: int| 0 <= i < sparks.len() && #[trigger] sparks[i].id == id
}

pub fn clamp_hp_all(sparks: &mut Vec<SparkState>, id: &String, delta: i32, max: i32)
    requires
        has_spark(spark_views(old(sparks)@), id@) ==> max >= 0,
        clamp_all_fits(spark_views(old(sparks)@), id@, delta),
    ensures
        spark_views(final(sparks)@) == clamp_all(spark_views(old(sparks)@), id@, delta, max),
{
    let ghost v0 = spark_views(sparks@);
    let n = sparks.len();
    for i in 0..n
        invariant
            n == sparks@.len(),
            has_spark(v0, id@) ==> max >= 0,
            v0.len() == n,
            clamp_all_fits(v0, id@, delta),
            forall|j: int| 0 <= j < i ==> #[trigger] spark_views(sparks@)[j] == clamp_all(v0, id@, delta, max)[j],
            forall|j: int| i <= j < n ==> #[trigger] spark_views(sparks@)[j] == v0[j],
    {
        if sparks[i].id == *id {
            assert(spark_views(sparks@)[i as int] == sparks@[i as int]@);
            assert(v0[i as int].id == id@);
            assert(has_spark(v0, id@));
            assert(hp_fits(v0[i as int].hp, delta));
            let ghost before = sparks@;
            let sum = sparks[i].hp + delta;
            let hp = if sum < 0 { 0 } else if sum > max { max } else { sum };
            let s = &mut sparks[i];
            s.hp = hp;
            proof {
                lemma_spark_views_update(before, i as int, sparks@[i as int]);
                assert(sparks@ == before.update(i as int, sparks@[i as int]));
            }
        }
    }
    assert(spark_views(sparks@) =~= clamp_all(v0, id@, delta, max));
}

/// Like [`clamp_hp_all`], but gives up (returning `false`, with the sparks
/// partly updated) at the first spark whose HP change would leave `i32`, or
/// when a matching spark exists and `max` is negative.
pub fn clamp_hp_all_checked(sparks: &mut Vec<SparkState>, id: &String, delta: i32, max: i32) -> (r: bool)
    ensures
        r == ((has_spark(spark_views(old(sparks)@), id@) ==> max >= 0) && clamp_all_fits(
            spark_views(old(sparks)@),
            id@,
            delta,
        )),
        r ==> spark_views(final(sparks)@) == clamp_all(spark_views(old(sparks)@), id@, delta, max),
{
    let ghost v0 = spark_views(sparks@);
    let n = sparks.len();
    for i in 0..n
        invariant
            n == sparks@.len(),
            v0.len() == n,
            v0 == spark_views(old(sparks)@),
            forall|j: int| 0 <= j < i && (#[trigger] v0[j]).id == id@ ==> max >= 0 && hp_fits(v0[j].hp, delta),
            forall|j: int| 0 <= j < i ==> #[trigger] spark_views(sparks@)[j] == clamp_all(v0, id@, delta, max)[j],
            forall|j: int| i <= j < n ==> #[trigger] spark_views(sparks@)[j] == v0[j],
    {
        assert(spark_views(sparks@)[i as int] == sparks@[i as int]@);
        assert(v0[i as int] == sparks@[i as int]@);
        if sparks[i].id == *id {
            let wide = sparks[i].hp as i64 + delta as i64;
            if max < 0 || wide < i32::MIN as i64 || wide > i32::MAX as i64 {
                proof {
                    assert(v0[i as int].id == id@);
                    if max < 0 {
                        assert(has_spark(v0, id@));
                    } else {
                        assert(!hp_fits(v0[i as int].hp, delta));
                        assert(!clamp_all_fits(v0, id@, delta));
                    }
                }
                return false;
            }
            assert(hp_fits(v0[i as int].hp, delta));
            let ghost before = sparks@;
            let sum = sparks[i].hp + delta;
            let hp = if sum < 0 { 0 } else if sum > max { max } else { sum };
            let s = &mut sparks[i];
            s.hp = hp;
            proof {
                lemma_spark_views_update(before, i as int, sparks@[i as int]);
                assert(sparks@ == before.update(i as int, sparks@[i as int]));
            }
        }
    }
    assert(spark_views(sparks@) =~= clamp_all(v0, id@, delta, max));
    assert forall|j: int| 0 <= j < v0.len() && v0[j].id == id@ implies hp_fits(#[trigger] v0[j].hp, delta) by {
        assert(v0[j].id == id@);
    }
    proof {
        if has_spark(v0, id@) {
            let k = choose|k: int| 0 <= k < v0.len() && #[trigger] v0[k].id == id@;
            assert(max >= 0 && hp_fits(v0[k].hp, delta));
        }
    }
    true
}

/// The first spark with the given id also carries the item (always appended).
pub open spec fn push_first(sparks: Seq<SparkStateView>, id: Seq<char>, item: Seq<char>) -> Seq<SparkStateView> {
    match find_spark(sparks, id) {
        Some(i) => sparks.update(i, SparkStateView { carrying: sparks[i].carrying.push(item), ..sparks[i] }),
        None => sparks,
    }
}

pub fn push_item_first(sparks: &mut Vec<SparkState>, id: &String, item: &String)
    ensures
        spark_views(final(sparks)@) == push_first(spark_views(old(sparks)@), id@, item@),
{
    match find_spark_index(sparks, id) {
        Some(i) => {
            let ghost before = sparks@;
            let s = &mut sparks[i];
            s.carrying.push(item.clone());
            proof {
                lemma_spark_views_update(before, i as int, sparks@[i as int]);
                assert(sparks@ == before.update(i as int, sparks@[i as int]));
                assert(strs(sparks@[i as int].carrying@) =~= strs(before[i as int].carrying@).push(item@));
            }
        },
        None => {},
    }
}

/// The position of the node with the given id in a list without repeated ids.
pub open spec fn index_of_id(nodes: Seq<crate::schemas::environment::BoardNodeView>, id: Seq<char>) -> Option<int> {
    if exists|i: int| 0 <= i < nodes.len() && #[trigger] nodes[i].id == id {
        Some(choose|i: int| 0 <= i < nodes.len() && #[trigger] nodes[i].id == id)
    } else {
        None
    }
}

/// One entry per node id, in order of first appearance, each holding the last
/// node listed with that id.
pub open spec fn dedup_by_id(nodes: Seq<crate::schemas::environment::BoardNodeView>) -> Seq<crate::schemas::environment::BoardNodeView>
    decreases nodes.len(),
{
    if nodes.len() == 0 {
        nodes
    } else {
        let r = dedup_by_id(nodes.drop_last());
        match index_of_id(r, nodes.last().id) {
            Some(j) => r.update(j, nodes.last()),
            None => r.push(nodes.last()),
        }
    }
}

/// No two entries share an id.
pub open spec fn ids_distinct(nodes: Seq<crate::schemas::environment::BoardNodeView>) -> bool {
    forall|i: int, j: int| 0 <= i < nodes.len() && 0 <= j < nodes.len() && i != j ==> #[trigger] nodes[i].id != #[trigger] nodes[j].id
}

proof fn lemma_dedup_distinct(nodes: Seq<crate::schemas::environment::BoardNodeView>)
    ensures
        ids_distinct(dedup_by_id(nodes)),
    decreases nodes.len(),
{
    if nodes.len() > 0 {
        lemma_dedup_distinct(nodes.drop_last());
        let r = dedup_by_id(nodes.drop_last());
        match index_of_id(r, nodes.last().id) {
            Some(j) => {
                let r2 = r.update(j, nodes.last());
                assert forall|a: int, b: int| 0 <= a < r2.len() && 0 <= b < r2.len() && a != b implies #[trigger] r2[a].id != #[trigger] r2[b].id by {
                    if a == j {
                        assert(r[j].id == nodes.last().id);
                    } else if b == j {
                        assert(r[j].id == nodes.last().id);
                    }
                }
            },
            None => {
                let r2 = r.push(nodes.last());
                assert forall|a: int, b: int| 0 <= a < r2.len() && 0 <= b < r2.len() && a != b implies #[trigger] r2[a].id != #[trigger] r2[b].id by {
                    if a == r.len() {
                        assert(r2[b] == r[b]);
                    } else if b == r.len() {
                        assert(r2[a] == r[a]);
                    }
                }
            },
        }
    }
}

/// Keeps one entry per node id (first position, last value).
pub fn dedup_nodes(nodes: Vec<BoardNode>) -> (r: Vec<BoardNode>)
    ensures
        r@.map_values(|n: BoardNode| n@) == dedup_by_id(nodes@.map_values(|n: BoardNode| n@)),
{
    let ghost views = nodes@.map_values(|n: BoardNode| n@);
    let mut r: Vec<BoardNode> = Vec::new();
    let mut rest = nodes;
    let ghost all = rest@;
    let mut taken: usize = 0;
    let total = rest.len();
    while rest.len() > 0
        invariant
            total == all.len(),
            views == all.map_values(|n: BoardNode| n@),
            taken + rest@.len() == all.len(),
            rest@ == all.skip(taken as int),
            r@.map_values(|n: BoardNode| n@) == dedup_by_id(views.take(taken as int)),
        decreases rest@.len(),
    {
        let n = rest.remove(0);
        proof {
            assert(n == all[taken as int]);
            lemma_dedup_distinct(views.take(taken as int));
        }
        let ghost before = r@;
        let ghost rv = before.map_values(|x: BoardNode| x@);
        let mut found: Option<usize> = None;
        for j in 0..r.len()
            invariant
                r@ == before,
                rv == before.map_values(|x: BoardNode| x@),
                found is None ==> forall|k: int| 0 <= k < j ==> rv[k].id != n.id@,
                found matches Some(k) ==> k < r@.len() && rv[k as int].id == n.id@,
        {
            if found.is_none() && r[j].id == n.id {
                found = Some(j);
            }
        }
        assert(views.take(taken + 1).drop_last() =~= views.take(taken as int));
        assert(views.take(taken + 1).last() == n@);
        match found {
            Some(k) => {
                proof {
                    assert(ids_distinct(rv));
                    let c = choose|i: int| 0 <= i < rv.len() && #[trigger] rv[i].id == n.id@;
                    assert(c == k as int);
                }
                r.set(k, n);
                proof {
                    assert(r@.map_values(|x: BoardNode| x@) =~= rv.update(k as int, n@));
                }
            },
            None => {
                r.push(n);
                proof {
                    assert(r@.map_values(|x: BoardNode| x@) =~= rv.push(n@));
                }
            },
        }
        taken = taken + 1;
        assert(rest@ =~= all.skip(taken as int));
    }
    assert(views.take(taken as int) =~= views);
    r
}


/// Adding an item to the first spark with an id keeps the length, every HP and every id.
pub proof fn lemma_push_first_hp(sparks: Seq<SparkStateView>, id: Seq<char>, item: Seq<char>, i: int)
    requires
        0 <= i < sparks.len(),
    ensures
        push_first(sparks, id, item).len() == sparks.len(),
        push_first(sparks, id, item)[i].hp == sparks[i].hp,
        push_first(sparks, id, item)[i].id == sparks[i].id,
{
    lemma_find_spark(sparks, id);
}


/// Adding an item to the first spark with an id keeps the sparks and their ids.
pub proof fn lemma_push_first_ids(sparks: Seq<SparkStateView>, id: Seq<char>, item: Seq<char>)
    ensures
        push_first(sparks, id, item).len() == sparks.len(),
        forall|i: int| 0 <= i < sparks.len() ==> (#[trigger] push_first(sparks, id, item)[i]).id == sparks[i].id,
{
    assert forall|i: int| 0 <= i < sparks.len() implies (#[trigger] push_first(sparks, id, item)[i]).id == sparks[i].id by {
        lemma_push_first_hp(sparks, id, item, i);
    }
    if sparks.len() > 0 {
        lemma_push_first_hp(sparks, id, item, 0);
    }
}



/// Spark lists with the same ids, in order, find the same first spark for an id.
proof fn lemma_find_spark_same_ids(a: Seq<SparkStateView>, b: Seq<SparkStateView>, id: Seq<char>)
    requires
        a.len() == b.len(),
        forall|i: int| 0 <= i < a.len() ==> (#[trigger] a[i]).id == b[i].id,
    ensures
        find_spark(a, id) == find_spark(b, id),
    decreases a.len(),
{
    if a.len() > 0 {
        assert forall|i: int| 0 <= i < a.drop_last().len() implies (#[trigger] a.drop_last()[i]).id == b.drop_last()[i].id by {
            assert(a.drop_last()[i] == a[i]);
            assert(b.drop_last()[i] == b[i]);
        }
        lemma_find_spark_same_ids(a.drop_last(), b.drop_last(), id);
        assert(a.last().id == b.last().id);
    }
}

/// A spark that received an item carries it.
proof fn lemma_with_carried_carries(s: SparkStateView, item: Seq<char>)
    ensures
        with_carried(s, item).carrying.contains(item),
        with_carried(with_carried(s, item), item) == with_carried(s, item),
{
    if !s.carrying.contains(item) {
        assert(s.carrying.push(item)[s.carrying.len() as int] == item);
    }
}

/// Replaying a patch creation twice is replaying it once: the creator and
/// every DC carry the item a single time.
pub proof fn lemma_patch_creation_idempotent(env: EnvironmentSpec, st: BoardState, e: RunEvent)
    requires
        e.event_type@ == "PatchCreated"@,
    ensures
        event_step(env, event_step(env, st, e), e) == event_step(env, st, e),
{
    lemma_event_names_distinct();
    let p = e.payload;
    if p.spark_id is Some && p.item_id is Some {
        let id = p.spark_id->0@;
        let item = p.item_id->0@;
        let s = st.1;
        let x = sparks_carry(s, id, item);
        let y = hand_to_dcs(x, item);
        lemma_find_spark(s, id);
        assert forall|i: int| 0 <= i < s.len() implies (#[trigger] x[i]).id == s[i].id by {}
        assert forall|i: int| 0 <= i < s.len() implies (#[trigger] y[i]).id == s[i].id by {}
        lemma_find_spark_same_ids(y, s, id);
        let z = sparks_carry(y, id, item);
        match find_spark(s, id) {
            Some(i) => {
                lemma_with_carried_carries(s[i], item);
                assert(x[i] == with_carried(s[i], item));
                lemma_with_carried_carries(x[i], item);
                assert(y[i].carrying.contains(item));
                assert(with_carried(y[i], item) == y[i]);
                assert(z =~= y);
            },
            None => {
                assert(z == y);
            },
        }
        assert forall|j: int| 0 <= j < y.len() implies #[trigger] hand_to_dcs(y, item)[j] == y[j] by {
            if y[j].kind == SparkKind::Dc {
                lemma_with_carried_carries(x[j], item);
            }
        }
        assert(hand_to_dcs(y, item) =~= y);
    }
}

/// Healing keeps every HP non-negative (for a non-negative maximum) and every
/// spark in place.
proof fn lemma_heal_all_nonneg(sparks: Seq<SparkStateView>, id: Seq<char>, kinds: Seq<Seq<char>>, hp: HpSpec)
    requires
        hp.max >= 0,
        forall|i: int| 0 <= i < sparks.len() ==> (#[trigger] sparks[i]).hp >= 0,
    ensures
        heal_all(sparks, id, kinds, hp).len() == sparks.len(),
        forall|i: int| 0 <= i < sparks.len() ==> (#[trigger] heal_all(sparks, id, kinds, hp)[i]).hp >= 0
            && heal_all(sparks, id, kinds, hp)[i].id == sparks[i].id,
    decreases kinds.len(),
{
    if kinds.len() > 0 {
        lemma_heal_all_nonneg(sparks, id, kinds.drop_last(), hp);
    }
}

/// Replaying any event keeps the board's shape: the same nodes and sparks, by
/// id and in order; and (for a non-negative HP maximum, and HP changes within
/// `i32` as replay checks) no spark's HP drops below zero.
pub proof fn lemma_event_step_keeps_shape(env: EnvironmentSpec, st: BoardState, e: RunEvent)
    requires
        env.hp.max >= 0,
        step_fits(env, st.1, e),
        forall|i: int| 0 <= i < st.1.len() ==> (#[trigger] st.1[i]).hp >= 0,
    ensures
        event_step(env, st, e).0.len() == st.0.len(),
        forall|i: int| 0 <= i < st.0.len() ==> (#[trigger] event_step(env, st, e).0[i]).id == st.0[i].id,
        event_step(env, st, e).1.len() == st.1.len(),
        forall|i: int| 0 <= i < st.1.len() ==> (#[trigger] event_step(env, st, e).1[i]).id == st.1[i].id
            && event_step(env, st, e).1[i].hp >= 0,
{
    lemma_event_names_distinct();
    let p = e.payload;
    let t = e.event_type@;
    let s = st.1;
    let r = event_step(env, st, e);
    if t == "ProbeFinished"@ && p.probe_id is Some && p.status is Some && p.spark_id is Some && p.hp_delta is Some {
        let id = p.spark_id->0@;
        let s1 = clamp_all(s, id, p.hp_delta->0 as i32, env.hp.max);
        let s2 = match opt_str(p.evidence_item_id) {
            Some(ev) => push_first(s1, id, ev),
            None => s1,
        };
        assert forall|i: int| 0 <= i < s.len() implies (#[trigger] s1[i]).hp >= 0 && s1[i].id == s[i].id by {}
        assert forall|i: int| 0 <= i < s.len() implies (#[trigger] s2[i]).hp >= 0 && s2[i].id == s[i].id by {
            match opt_str(p.evidence_item_id) {
                Some(ev) => {
                    lemma_push_first_hp(s1, id, ev, i);
                },
                None => {},
            }
        }
        assert(s1.len() == s.len());
        lemma_find_spark(s1, id);
        assert(s2.len() == s.len());
        let kinds = opened_kinds(env.gates@, logged_gate_ids(p));
        lemma_heal_all_nonneg(s2, id, kinds, env.hp);
        assert(r.1 == heal_all(s2, id, kinds, env.hp));
        assert forall|i: int| 0 <= i < s.len() implies (#[trigger] r.1[i]).id == s[i].id && r.1[i].hp >= 0 by {
            assert(r.1[i] == heal_all(s2, id, kinds, env.hp)[i]);
        }
    } else if t == "PatchCreated"@ && p.spark_id is Some && p.item_id is Some {
        lemma_find_spark(s, p.spark_id->0@);
    } else if t == "SparkMoved"@ && p.spark_id is Some && p.to_node_id is Some {
        lemma_find_spark(s, p.spark_id->0@);
    } else if t == "PolicyViolation"@ && p.spark_id is Some && p.hp_delta is Some {
        lemma_find_spark(s, p.spark_id->0@);
    }
}


/// The heal that opening a gate gives: after the gates opened so far, one more
/// gate heals every spark with the id by `unlock_gate_integration` when it is
/// an integration gate and by `unlock_gate_unit` otherwise (a unit gate, a
/// fuse or any other kind), keeping each HP within `0..=max`; sparks with
/// another id are untouched.
pub proof fn lemma_gate_heal_amount(
    sparks: Seq<SparkStateView>,
    id: Seq<char>,
    kinds: Seq<Seq<char>>,
    kind: Seq<char>,
    hp: HpSpec,
)
    ensures
        heal_all(sparks, id, kinds.push(kind), hp) == clamp_all(
            heal_all(sparks, id, kinds, hp),
            id,
            if kind == "integration"@ { hp.heal.unlock_gate_integration } else { hp.heal.unlock_gate_unit },
            hp.max,
        ),
        forall|i: int| 0 <= i < sparks.len() ==> (#[trigger] heal_all(sparks, id, kinds.push(kind), hp)[i]).hp == if sparks[i].id == id {
            clamp_hp(
                heal_all(sparks, id, kinds, hp)[i].hp,
                if kind == "integration"@ { hp.heal.unlock_gate_integration } else { hp.heal.unlock_gate_unit },
                hp.max,
            )
        } else {
            heal_all(sparks, id, kinds, hp)[i].hp
        },
{
    reveal_strlit("integration");
    reveal_strlit("unit");
    reveal_strlit("fuse");
    assert("integration"@.len() != "unit"@.len());
    assert("integration"@.len() != "fuse"@.len());
    assert(kinds.push(kind).drop_last() =~= kinds);
    assert(kinds.push(kind).last() == kind);
    lemma_heal_keeps_ids(sparks, id, kinds, hp);
}

} // verus!
