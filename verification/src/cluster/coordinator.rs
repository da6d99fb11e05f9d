//! Cluster coordinator: membership, group assignments and retained message
//! sync, as state transitions. Sending and receiving happen outside this
//! library; every operation here says which messages go to which peer.

use crate::cluster::node::{
    copy_strings, health_after, same_node, spec_handles_group, text_set,
    NodeInfo, NodeInfoResponse, NodeState, NodeView,
};
use crate::cluster::protocol::{
    assignment_pairs, copy_assignments, snapshot_views, ClusterMessage, GroupAssignment,
    MessageView, NodeSnapshot, SnapshotView,
};
use crate::cluster::retained::{RetainedMessage, RetainedStore};
use crate::config::schema::ClusterConfig;
use dashmap::DashMap;
use std::time::Instant;
use vstd::prelude::*;

verus! {

broadcast use vstd::string::group_string_axioms;

// ---------------------------------------------------------------------------
// The peer table
// ---------------------------------------------------------------------------

/// What a `DashMap` of peers holds, by node name.
pub uninterp spec fn peer_entries(m: DashMap<String, NodeInfo>) -> Map<Seq<char>, NodeInfo>;

/// `DashMap::new`: an empty peer table.
#[verifier::external_body]
fn peer_map_new() -> (res: DashMap<String, NodeInfo>)
    ensures
        (peer_entries(res) == Map::<Seq<char>, NodeInfo>::empty()),
{
    DashMap::new()
}

/// `DashMap::insert`: the name now maps to the node; other names are untouched.
#[verifier::external_body]
fn peer_map_insert(m: &mut DashMap<String, NodeInfo>, key: String, value: NodeInfo)
    ensures
        peer_entries(*final(m)) == peer_entries(*old(m)).insert(key@, value),
{
    m.insert(key, value);
}

/// `DashMap::get`, cloning the node found.
#[verifier::external_body]
fn peer_map_get(m: &DashMap<String, NodeInfo>, key: &str) -> (res: Option<NodeInfo>)
    ensures
        match res {
            Some(v) => peer_entries(*m).contains_key(key@) && same_node(v, peer_entries(*m)[key@]),
            None => !peer_entries(*m).contains_key(key@),
        },
{
    m.get(key).map(|r| r.value().clone())
}

/// `DashMap::contains_key`.
#[verifier::external_body]
fn peer_map_contains(m: &DashMap<String, NodeInfo>, key: &str) -> (res: bool)
    ensures
        res == peer_entries(*m).contains_key(key@),
{
    m.contains_key(key)
}

/// `DashMap::remove`: the name no longer has an entry.
#[verifier::external_body]
fn peer_map_remove(m: &mut DashMap<String, NodeInfo>, key: &str)
    ensures
        peer_entries(*final(m)) == peer_entries(*old(m)).remove(key@),
{
    m.remove(key);
}

/// `DashMap::iter`, cloning each entry: every entry once, in an unspecified order.
#[verifier::external_body]
fn peer_map_entries(m: &DashMap<String, NodeInfo>) -> (res: Vec<(String, NodeInfo)>)
    ensures
        res@.len() == peer_entries(*m).len(),
        forall|i: int|
            0 <= i < res@.len() ==> peer_entries(*m).contains_key(#[trigger] res@[i].0@)
                && same_node(res@[i].1, peer_entries(*m)[res@[i].0@]),
        forall|i: int, j: int|
            0 <= i < res@.len() && 0 <= j < res@.len() && i != j ==> #[trigger] res@[i].0@
                != #[trigger] res@[j].0@,
        forall|k: Seq<char>|
            #[trigger] peer_entries(*m).contains_key(k) ==> exists|i: int|
                0 <= i < res@.len() && res@[i].0@ == k,
{
    m.iter().map(|r| (r.key().clone(), r.value().clone())).collect()
}

// ---------------------------------------------------------------------------
// Group assignments: a list with each group at most once
// ---------------------------------------------------------------------------

/// No group occurs twice in a list of assignments.
pub open spec fn distinct_groups(v: Seq<GroupAssignment>) -> bool {
    forall|i: int, j: int|
        0 <= i < v.len() && 0 <= j < v.len() && i != j ==> #[trigger] v[i].group@
            != #[trigger] v[j].group@
}

/// The group to node mapping that a list of assignments stands for.
pub open spec fn assignment_map(v: Seq<GroupAssignment>) -> Map<Seq<char>, Seq<char>> {
    Map::new(
        |g: Seq<char>| exists|i: int| 0 <= i < v.len() && (#[trigger] v[i]).group@ == g,
        |g: Seq<char>| v[choose|i: int| 0 <= i < v.len() && (#[trigger] v[i]).group@ == g].node_name@,
    )
}

/// Each listed assignment is what the mapping says for its group.
pub proof fn lemma_assignment_at(v: Seq<GroupAssignment>, i: int)
    requires
        distinct_groups(v),
        0 <= i < v.len(),
    ensures
        assignment_map(v).contains_key(v[i].group@),
        assignment_map(v)[v[i].group@] == v[i].node_name@,
{
    let g = v[i].group@;
    assert(exists|j: int| 0 <= j < v.len() && (#[trigger] v[j]).group@ == g);
    let j = choose|j: int| 0 <= j < v.len() && (#[trigger] v[j]).group@ == g;
    assert(j == i);
}

/// Every listed assignment is what the mapping says for its group.
pub proof fn lemma_assignments_all(v: Seq<GroupAssignment>)
    requires
        distinct_groups(v),
    ensures
        forall|i: int|
            0 <= i < v.len() ==> assignment_map(v).contains_key(#[trigger] v[i].group@)
                && assignment_map(v)[v[i].group@] == v[i].node_name@,
{
    assert forall|i: int| 0 <= i < v.len() implies assignment_map(v).contains_key(
        #[trigger] v[i].group@,
    ) && assignment_map(v)[v[i].group@] == v[i].node_name@ by {
        lemma_assignment_at(v, i);
    }
}

/// The position of a group in a list of assignments.
fn find_group(v: &Vec<GroupAssignment>, group: &str) -> (res: Option<usize>)
    ensures
        match res {
            Some(i) => i < v@.len() && v@[i as int].group@ == group@,
            None => forall|i: int| 0 <= i < v@.len() ==> (#[trigger] v@[i]).group@ != group@,
        },
{
    let target = group.to_string();
    let mut i: usize = 0;
    while i < v.len()
        invariant
            i <= v@.len(),
            target@ == group@,
            forall|j: int| 0 <= j < i ==> (#[trigger] v@[j]).group@ != group@,
        decreases v@.len() - i,
    {
        if v[i].group == target {
            return Some(i);
        }
        i = i + 1;
    }
    None
}

/// Assign a group to a node, replacing any earlier assignment of it.
fn set_assignment(v: &mut Vec<GroupAssignment>, group: String, node_name: String)
    requires
        distinct_groups(old(v)@),
    ensures
        distinct_groups(final(v)@),
        assignment_map(final(v)@) == assignment_map(old(v)@).insert(group@, node_name@),
{
    let ghost g = group@;
    let ghost n = node_name@;
    let ghost before = v@;
    proof {
        lemma_assignments_all(before);
    }
    match find_group(v, group.as_str()) {
        Some(i) => {
            v.set(i, GroupAssignment { group, node_name });
            proof {
                assert(distinct_groups(v@));
                lemma_assignments_all(v@);
                assert forall|k: Seq<char>| #[trigger]
                    assignment_map(v@).contains_key(k) <==> assignment_map(before).insert(
                        g,
                        n,
                    ).contains_key(k) by {
                    if k == g {
                        assert(v@[i as int].group@ == g);
                    }
                    if assignment_map(v@).contains_key(k) {
                        let j = choose|j: int| 0 <= j < v@.len() && (#[trigger] v@[j]).group@ == k;
                        if j != i {
                            assert(before[j] == v@[j]);
                        }
                    }
                    if assignment_map(before).contains_key(k) && k != g {
                        let j = choose|j: int| 0 <= j < before.len() && (#[trigger] before[j]).group@ == k;
                        assert(j != i);
                        assert(before[j] == v@[j]);
                    }
                }
                assert forall|k: Seq<char>| #[trigger]
                    assignment_map(v@).contains_key(k) implies assignment_map(v@)[k]
                    == assignment_map(before).insert(g, n)[k] by {
                    let j = choose|j: int| 0 <= j < v@.len() && (#[trigger] v@[j]).group@ == k;
                    if j != i {
                        assert(before[j] == v@[j]);
                    }
                }
                assert(assignment_map(v@) =~= assignment_map(before).insert(g, n));
            }
        },
        None => {
            v.push(GroupAssignment { group, node_name });
            proof {
                assert(distinct_groups(v@));
                lemma_assignments_all(v@);
                assert forall|k: Seq<char>| #[trigger]
                    assignment_map(v@).contains_key(k) <==> assignment_map(before).insert(
                        g,
                        n,
                    ).contains_key(k) by {
                    if k == g {
                        assert(v@[before.len() as int].group@ == g);
                    }
                    if assignment_map(v@).contains_key(k) {
                        let j = choose|j: int| 0 <= j < v@.len() && (#[trigger] v@[j]).group@ == k;
                        if j < before.len() {
                            assert(before[j] == v@[j]);
                        }
                    }
                    if assignment_map(before).contains_key(k) {
                        let j = choose|j: int| 0 <= j < before.len() && (#[trigger] before[j]).group@ == k;
                        assert(before[j] == v@[j]);
                    }
                }
                assert forall|k: Seq<char>| #[trigger]
                    assignment_map(v@).contains_key(k) implies assignment_map(v@)[k]
                    == assignment_map(before).insert(g, n)[k] by {
                    let j = choose|j: int| 0 <= j < v@.len() && (#[trigger] v@[j]).group@ == k;
                    if j < before.len() {
                        assert(before[j] == v@[j]);
                    }
                }
                assert(assignment_map(v@) =~= assignment_map(before).insert(g, n));
            }
        },
    }
}

/// Remove the assignment of a group, returning the node it was assigned to.
fn remove_assignment(v: &mut Vec<GroupAssignment>, group: &str) -> (res: Option<String>)
    requires
        distinct_groups(old(v)@),
    ensures
        distinct_groups(final(v)@),
        assignment_map(final(v)@) == assignment_map(old(v)@).remove(group@),
        match res {
            Some(n) => assignment_map(old(v)@).contains_key(group@) && n@ == assignment_map(
                old(v)@,
            )[group@],
            None => !assignment_map(old(v)@).contains_key(group@),
        },
{
    let ghost before = v@;
    let ghost g = group@;
    proof {
        lemma_assignments_all(before);
    }
    match find_group(v, group) {
        Some(i) => {
            let removed = v.remove(i);
            proof {
                assert(removed == before[i as int]);
                assert forall|a: int, b: int|
                    0 <= a < v@.len() && 0 <= b < v@.len() && a != b implies #[trigger] v@[a].group@
                    != #[trigger] v@[b].group@ by {
                    let a2 = if a < i { a } else { a + 1 };
                    let b2 = if b < i { b } else { b + 1 };
                    assert(v@[a] == before[a2]);
                    assert(v@[b] == before[b2]);
                }
                lemma_assignments_all(v@);
                assert forall|k: Seq<char>| #[trigger]
                    assignment_map(v@).contains_key(k) <==> assignment_map(before).remove(
                        g,
                    ).contains_key(k) by {
                    if assignment_map(v@).contains_key(k) {
                        let j = choose|j: int| 0 <= j < v@.len() && (#[trigger] v@[j]).group@ == k;
                        let j2 = if j < i { j } else { j + 1 };
                        assert(v@[j] == before[j2]);
                        assert(j2 != i);
                    }
                    if assignment_map(before).contains_key(k) && k != g {
                        let j = choose|j: int| 0 <= j < before.len() && (#[trigger] before[j]).group@ == k;
                        assert(j != i);
                        let j2 = if j < i { j } else { j - 1 };
                        assert(v@[j2] == before[j]);
                    }
                }
                assert forall|k: Seq<char>| #[trigger]
                    assignment_map(v@).contains_key(k) implies assignment_map(v@)[k]
                    == assignment_map(before).remove(g)[k] by {
                    let j = choose|j: int| 0 <= j < v@.len() && (#[trigger] v@[j]).group@ == k;
                    let j2 = if j < i { j } else { j + 1 };
                    assert(v@[j] == before[j2]);
                }
                assert(assignment_map(v@) =~= assignment_map(before).remove(g));
            }
            Some(removed.node_name)
        },
        None => {
            assert(assignment_map(before).remove(g) =~= assignment_map(before));
            None
        },
    }
}

/// The mapping without the groups assigned to `node`.
pub open spec fn without_node(m: Map<Seq<char>, Seq<char>>, node: Seq<char>) -> Map<
    Seq<char>,
    Seq<char>,
> {
    Map::new(|k: Seq<char>| m.contains_key(k) && m[k] != node, |k: Seq<char>| m[k])
}

/// Drop every assignment to `node`.
fn remove_assignments_to(v: &mut Vec<GroupAssignment>, node: &str)
    requires
        distinct_groups(old(v)@),
    ensures
        distinct_groups(final(v)@),
        assignment_map(final(v)@) == without_node(assignment_map(old(v)@), node@),
{
    let ghost before = v@;
    proof {
        lemma_assignments_all(before);
    }
    let target = node.to_string();
    let mut out: Vec<GroupAssignment> = Vec::new();
    let ghost mut idx: Seq<int> = Seq::empty();
    let mut i: usize = 0;
    while i < v.len()
        invariant
            i <= v@.len(),
            v@ == before,
            target@ == node@,
            distinct_groups(before),
            idx.len() == out@.len(),
            forall|j: int|
                0 <= j < idx.len() ==> 0 <= #[trigger] idx[j] < i && out@[j].group@ == before[idx[j]].group@
                    && out@[j].node_name@ == before[idx[j]].node_name@ && before[idx[j]].node_name@
                    != node@,
            forall|a: int, b: int| 0 <= a < b < idx.len() ==> idx[a] < idx[b],
            forall|q: int|
                0 <= q < i && before[q].node_name@ != node@ ==> exists|j: int|
                    0 <= j < idx.len() && #[trigger] idx[j] == q,
        decreases v@.len() - i,
    {
        let ghost old_idx = idx;
        if v[i].node_name != target {
            out.push(v[i].duplicate());
            proof {
                idx = idx.push(i as int);
            }
        }
        proof {
            assert forall|q: int| 0 <= q < i + 1 && before[q].node_name@ != node@ implies exists|j: int|
                0 <= j < idx.len() && #[trigger] idx[j] == q by {
                if q == i {
                    assert(idx[idx.len() - 1] == q);
                } else {
                    let j = choose|j: int| 0 <= j < old_idx.len() && #[trigger] old_idx[j] == q;
                    assert(idx[j] == old_idx[j]);
                }
            }
        }
        i = i + 1;
    }
    proof {
        assert forall|a: int, b: int|
            0 <= a < out@.len() && 0 <= b < out@.len() && a != b implies #[trigger] out@[a].group@
            != #[trigger] out@[b].group@ by {
            assert(idx[a] != idx[b]);
        }
        lemma_assignments_all(out@);
        let m = without_node(assignment_map(before), node@);
        assert forall|k: Seq<char>| #[trigger]
            assignment_map(out@).contains_key(k) <==> m.contains_key(k) by {
            if assignment_map(out@).contains_key(k) {
                let j = choose|j: int| 0 <= j < out@.len() && (#[trigger] out@[j]).group@ == k;
                lemma_assignment_at(before, idx[j]);
            }
            if m.contains_key(k) {
                let q = choose|q: int| 0 <= q < before.len() && (#[trigger] before[q]).group@ == k;
                lemma_assignment_at(before, q);
                let j = choose|j: int| 0 <= j < idx.len() && #[trigger] idx[j] == q;
                assert(out@[j].group@ == k);
            }
        }
        assert forall|k: Seq<char>| #[trigger]
            assignment_map(out@).contains_key(k) implies assignment_map(out@)[k] == m[k] by {
            let j = choose|j: int| 0 <= j < out@.len() && (#[trigger] out@[j]).group@ == k;
            lemma_assignment_at(before, idx[j]);
            lemma_assignment_at(out@, j);
        }
        assert(assignment_map(out@) =~= m);
    }
    *v = out;
}

/// The mapping of every group in `groups` to `node`.
pub open spec fn all_to(groups: Set<Seq<char>>, node: Seq<char>) -> Map<Seq<char>, Seq<char>> {
    Map::new(|g: Seq<char>| groups.contains(g), |g: Seq<char>| node)
}

/// Assign every listed group to `node`, replacing earlier assignments of those groups.
fn assign_all(v: &mut Vec<GroupAssignment>, groups: &Vec<String>, node: &String)
    requires
        distinct_groups(old(v)@),
    ensures
        distinct_groups(final(v)@),
        assignment_map(final(v)@) == assignment_map(old(v)@).union_prefer_right(
            all_to(text_set(groups@), node@),
        ),
{
    let ghost start = assignment_map(v@);
    let mut i: usize = 0;
    while i < groups.len()
        invariant
            i <= groups@.len(),
            distinct_groups(v@),
            assignment_map(v@) == start.union_prefer_right(
                all_to(text_set(groups@.take(i as int)), node@),
            ),
        decreases groups@.len() - i,
    {
        let ghost before = assignment_map(v@);
        set_assignment(v, groups[i].clone(), node.clone());
        proof {
            let next = groups@.take(i + 1);
            assert(next == groups@.take(i as int).push(groups@[i as int]));
            assert forall|t: Seq<char>| text_set(next).contains(t) <==> (text_set(
                groups@.take(i as int),
            ).contains(t) || t == groups@[i as int]@) by {
                if text_set(next).contains(t) {
                    let m = choose|m: int| 0 <= m < next.len() && next[m]@ == t;
                    if m < i {
                        assert(groups@.take(i as int)[m] == next[m]);
                    }
                }
                if text_set(groups@.take(i as int)).contains(t) {
                    let m = choose|m: int| 0 <= m < i && groups@.take(i as int)[m]@ == t;
                    assert(next[m] == groups@.take(i as int)[m]);
                }
                if t == groups@[i as int]@ {
                    assert(next[i as int] == groups@[i as int]);
                }
            }
            assert(assignment_map(v@) =~= start.union_prefer_right(
                all_to(text_set(next), node@),
            ));
        }
        i = i + 1;
    }
    assert(groups@.take(groups@.len() as int) == groups@);
}

/// Apply a list of assignments over the current ones.
fn override_with(v: &mut Vec<GroupAssignment>, over: &Vec<GroupAssignment>)
    requires
        distinct_groups(old(v)@),
        distinct_groups(over@),
    ensures
        distinct_groups(final(v)@),
        assignment_map(final(v)@) == assignment_map(old(v)@).union_prefer_right(
            assignment_map(over@),
        ),
{
    let ghost start = assignment_map(v@);
    proof {
        lemma_assignments_all(over@);
    }
    let mut i: usize = 0;
    while i < over.len()
        invariant
            i <= over@.len(),
            distinct_groups(v@),
            distinct_groups(over@),
            forall|j: int|
                0 <= j < over@.len() ==> assignment_map(over@).contains_key(#[trigger] over@[j].group@)
                    && assignment_map(over@)[over@[j].group@] == over@[j].node_name@,
            assignment_map(v@) == start.union_prefer_right(assignment_map(over@.take(i as int))),
        decreases over@.len() - i,
    {
        set_assignment(v, over[i].group.clone(), over[i].node_name.clone());
        proof {
            let prev = over@.take(i as int);
            let next = over@.take(i + 1);
            assert(next == prev.push(over@[i as int]));
            assert(distinct_groups(prev));
            assert(distinct_groups(next));
            lemma_assignments_all(prev);
            lemma_assignments_all(next);
            assert forall|k: Seq<char>| #[trigger] assignment_map(next).contains_key(k) <==> (
            assignment_map(prev).contains_key(k) || k == over@[i as int].group@) by {
                if assignment_map(next).contains_key(k) {
                    let m = choose|m: int| 0 <= m < next.len() && (#[trigger] next[m]).group@ == k;
                    if m < i {
                        assert(prev[m] == next[m]);
                    }
                }
                if assignment_map(prev).contains_key(k) {
                    let m = choose|m: int| 0 <= m < prev.len() && (#[trigger] prev[m]).group@ == k;
                    assert(next[m] == prev[m]);
                }
                if k == over@[i as int].group@ {
                    assert(next[i as int] == over@[i as int]);
                }
            }
            assert forall|k: Seq<char>| #[trigger] assignment_map(next).contains_key(k) implies
                assignment_map(next)[k] == (if k == over@[i as int].group@ {
                over@[i as int].node_name@
            } else {
                assignment_map(prev)[k]
            }) by {
                let m = choose|m: int| 0 <= m < next.len() && (#[trigger] next[m]).group@ == k;
                if m < i {
                    assert(prev[m] == next[m]);
                }
            }
            assert(assignment_map(v@) =~= start.union_prefer_right(assignment_map(next)));
        }
        i = i + 1;
    }
    assert(over@.take(over@.len() as int) == over@);
}

/// The group set of the `j`-th listed peer.
pub open spec fn groups_at(e: Seq<(String, NodeInfo)>, j: int) -> Set<Seq<char>> {
    text_set(e[j].1.assigned_groups@)
}

/// Whether one of the first `n` listed peers has `g` among its groups.
pub open spec fn listed_has(e: Seq<(String, NodeInfo)>, n: int, g: Seq<char>) -> bool {
    exists|j: int| 0 <= j < n && #[trigger] groups_at(e, j).contains(g)
}

/// Whether some peer has `g` among its statically assigned groups.
pub open spec fn spec_peer_has_group(peers: Map<Seq<char>, NodeView>, g: Seq<char>) -> bool {
    exists|k: Seq<char>| peers.contains_key(k) && (#[trigger] peers[k]).groups.contains(g)
}

/// The mapping without the groups assigned to any of `nodes`.
pub open spec fn without_nodes(m: Map<Seq<char>, Seq<char>>, nodes: Set<Seq<char>>) -> Map<
    Seq<char>,
    Seq<char>,
> {
    Map::new(|k: Seq<char>| m.contains_key(k) && !nodes.contains(m[k]), |k: Seq<char>| m[k])
}

/// Seconds without a heartbeat after which a peer is suspect.
pub const SUSPECT_AFTER_SECS: u64 = 10;

/// Seconds without a heartbeat after which a peer is down and removed.
pub const DOWN_AFTER_SECS: u64 = 30;

/// The elapsed seconds given for a peer: those of the first entry naming it, if any.
pub open spec fn elapsed_for(elapsed: Seq<(String, u64)>, name: Seq<char>) -> Option<u64>
    decreases elapsed.len(),
{
    if elapsed.len() == 0 {
        None
    } else if elapsed[0].0@ == name {
        Some(elapsed[0].1)
    } else {
        elapsed_for(elapsed.drop_first(), name)
    }
}

/// Entries that do not name a peer can be skipped when looking it up.
pub proof fn lemma_elapsed_for_skip(elapsed: Seq<(String, u64)>, name: Seq<char>, i: int)
    requires
        0 <= i <= elapsed.len(),
        forall|j: int| 0 <= j < i ==> (#[trigger] elapsed[j]).0@ != name,
    ensures
        elapsed_for(elapsed, name) == elapsed_for(elapsed.skip(i), name),
    decreases i,
{
    if i == 0 {
        assert(elapsed.skip(0) =~= elapsed);
    } else {
        let rest = elapsed.drop_first();
        assert forall|j: int| 0 <= j < i - 1 implies (#[trigger] rest[j]).0@ != name by {
            assert(rest[j] == elapsed[j + 1]);
        }
        lemma_elapsed_for_skip(rest, name, i - 1);
        assert(rest.skip(i - 1) =~= elapsed.skip(i));
        assert(elapsed[0].0@ != name);
    }
}

/// A peer named by some entry gets elapsed seconds.
pub proof fn lemma_elapsed_for_named(elapsed: Seq<(String, u64)>, name: Seq<char>, i: int)
    requires
        0 <= i < elapsed.len(),
        elapsed[i].0@ == name,
    ensures
        elapsed_for(elapsed, name) is Some,
    decreases i,
{
    if i > 0 && elapsed[0].0@ != name {
        let rest = elapsed.drop_first();
        assert(rest[i - 1] == elapsed[i]);
        lemma_elapsed_for_named(rest, name, i - 1);
    }
}

/// A peer after a health check with the given elapsed seconds; unchanged when none is given.
pub open spec fn peer_after_check(
    v: NodeView,
    elapsed: Option<u64>,
    suspect_after: u64,
    down_after: u64,
) -> NodeView {
    match elapsed {
        Some(x) => NodeView { state: health_after(v.state, x, suspect_after, down_after), ..v },
        None => v,
    }
}

/// The peers kept by a health check: those not down afterwards, in their checked state.
pub open spec fn peers_after_health(
    peers: Map<Seq<char>, NodeView>,
    elapsed: Seq<(String, u64)>,
    suspect_after: u64,
    down_after: u64,
) -> Map<Seq<char>, NodeView> {
    Map::new(
        |k: Seq<char>|
            peers.contains_key(k) && peer_after_check(
                peers[k],
                elapsed_for(elapsed, k),
                suspect_after,
                down_after,
            ).state != NodeState::Down,
        |k: Seq<char>| peer_after_check(peers[k], elapsed_for(elapsed, k), suspect_after, down_after),
    )
}

/// The peers a health check finds down.
pub open spec fn down_after_health(
    peers: Map<Seq<char>, NodeView>,
    elapsed: Seq<(String, u64)>,
    suspect_after: u64,
    down_after: u64,
) -> Set<Seq<char>> {
    Set::new(
        |k: Seq<char>|
            peers.contains_key(k) && peer_after_check(
                peers[k],
                elapsed_for(elapsed, k),
                suspect_after,
                down_after,
            ).state == NodeState::Down,
    )
}

/// The `j`-th listed peer, as now stored, has been health checked and kept its name and groups.
pub open spec fn slot_checked(
    p: Map<Seq<char>, NodeInfo>,
    e: Seq<(String, NodeInfo)>,
    states: Seq<NodeState>,
    elapsed: Seq<(String, u64)>,
    j: int,
    suspect_after: u64,
    down_after: u64,
) -> bool {
    &&& p[e[j].0@].wf()
    &&& p[e[j].0@]@.name == e[j].0@
    &&& p[e[j].0@].state == states[j]
    &&& p[e[j].0@]@ == peer_after_check(e[j].1@, elapsed_for(elapsed, e[j].0@), suspect_after, down_after)
}

/// Look up the elapsed seconds given for a peer.
fn lookup_elapsed(elapsed: &Vec<(String, u64)>, name: &str) -> (res: Option<u64>)
    ensures
        res == elapsed_for(elapsed@, name@),
{
    let target = name.to_string();
    let mut i: usize = 0;
    while i < elapsed.len()
        invariant
            i <= elapsed@.len(),
            target@ == name@,
            forall|j: int| 0 <= j < i ==> (#[trigger] elapsed@[j]).0@ != name@,
        decreases elapsed@.len() - i,
    {
        if elapsed[i].0 == target {
            proof {
                lemma_elapsed_for_skip(elapsed@, name@, i as int);
                assert(elapsed@.skip(i as int)[0] == elapsed@[i as int]);
            }
            return Some(elapsed[i].1);
        }
        i = i + 1;
    }
    proof {
        lemma_elapsed_for_skip(elapsed@, name@, i as int);
        assert(elapsed@.skip(i as int).len() == 0);
    }
    None
}

/// The snapshot of a node sent in join responses.
pub open spec fn snapshot_of(n: NodeView) -> SnapshotView {
    SnapshotView { name: n.name, mqtt_addr: n.mqtt_addr, cluster_addr: n.cluster_addr, groups: n.groups }
}

/// A list of (group, node) pairs lists a mapping: each group once, each pair in the mapping, every group listed.
pub open spec fn lists_mapping(pairs: Seq<(Seq<char>, Seq<char>)>, m: Map<Seq<char>, Seq<char>>) -> bool {
    &&& forall|i: int|
        0 <= i < pairs.len() ==> m.contains_key(#[trigger] pairs[i].0) && m[pairs[i].0] == pairs[i].1
    &&& forall|i: int, j: int|
        0 <= i < pairs.len() && 0 <= j < pairs.len() && i != j ==> #[trigger] pairs[i].0
            != #[trigger] pairs[j].0
    &&& forall|g: Seq<char>| #[trigger]
        m.contains_key(g) ==> exists|i: int| 0 <= i < pairs.len() && pairs[i].0 == g
}

/// Snapshots list, after a first entry, every peer except `excluded` once.
pub open spec fn lists_peers_except(
    nodes: Seq<SnapshotView>,
    peers: Map<Seq<char>, NodeView>,
    excluded: Seq<char>,
) -> bool {
    &&& nodes.len() >= 1
    &&& forall|i: int|
        1 <= i < nodes.len() ==> peers.contains_key(#[trigger] nodes[i].name) && nodes[i].name
            != excluded && nodes[i] == snapshot_of(peers[nodes[i].name])
    &&& forall|i: int, j: int|
        1 <= i < nodes.len() && 1 <= j < nodes.len() && i != j ==> #[trigger] nodes[i].name
            != #[trigger] nodes[j].name
    &&& forall|k: Seq<char>| #[trigger]
        peers.contains_key(k) && k != excluded ==> exists|i: int|
            1 <= i < nodes.len() && nodes[i].name == k
}

/// Replies to a retained message request: one sync per stored message whose topic matches.
pub open spec fn syncs_matching(
    replies: Seq<ClusterMessage>,
    retained: Map<Seq<char>, RetainedMessage>,
    pattern: Seq<char>,
    source: Seq<char>,
) -> bool {
    &&& forall|i: int|
        0 <= i < replies.len() ==> is_matching_sync((#[trigger] replies[i])@, retained, pattern, source)
    &&& forall|i: int, j: int|
        0 <= i < replies.len() && 0 <= j < replies.len() && i != j ==> sync_topic(
            #[trigger] replies[i]@,
        ) != sync_topic(#[trigger] replies[j]@)
    &&& forall|t: Seq<char>| #[trigger]
        retained.contains_key(t) && crate::cluster::retained::spec_topic_matches(pattern, t)
            ==> exists|i: int| 0 <= i < replies.len() && sync_topic(replies[i]@) == t
}

/// A sync of a stored message whose topic matches `pattern`, sent as from `source`.
pub open spec fn is_matching_sync(
    m: MessageView,
    retained: Map<Seq<char>, RetainedMessage>,
    pattern: Seq<char>,
    source: Seq<char>,
) -> bool {
    match m {
        MessageView::RetainedSync { topic, payload, source_node } => {
            &&& retained.contains_key(topic)
            &&& retained[topic].payload@ == payload
            &&& source_node == source
            &&& crate::cluster::retained::spec_topic_matches(pattern, topic)
        },
        _ => false,
    }
}

/// The topic of a retained message sync.
pub open spec fn sync_topic(m: MessageView) -> Seq<char> {
    match m {
        MessageView::RetainedSync { topic, .. } => topic,
        _ => Seq::empty(),
    }
}

/// Why a peer's message was rejected.
#[derive(PartialEq, Eq, Structural, Clone, Copy, Debug)]
pub enum PeerError {
    /// A socket address in a join request does not parse.
    InvalidAddress,
}

/// The snapshot of a node.
fn node_snapshot(n: &NodeInfo) -> (res: NodeSnapshot)
    ensures
        res@ == snapshot_of(n@),
{
    NodeSnapshot {
        name: n.name.clone(),
        mqtt_addr: n.mqtt_addr.clone(),
        cluster_addr: n.cluster_addr.clone(),
        assigned_groups: copy_strings(&n.assigned_groups),
    }
}

/// The answer to a join request: accepted, the local node first, then
/// every other peer except the joining one, and the dynamic assignments.
pub open spec fn is_join_reply(
    m: MessageView,
    local: NodeView,
    peers: Map<Seq<char>, NodeView>,
    joining: Seq<char>,
    assignments: Map<Seq<char>, Seq<char>>,
) -> bool {
    match m {
        MessageView::JoinResponse { accepted, nodes, assignments: pairs } => {
            &&& accepted
            &&& nodes.len() >= 1
            &&& nodes[0] == snapshot_of(local)
            &&& lists_peers_except(nodes, peers, joining)
            &&& lists_mapping(pairs, assignments)
        },
        _ => false,
    }
}

/// A peer as announced in a join response.
pub open spec fn announced_peer(n: SnapshotView) -> NodeView {
    NodeView {
        name: n.name,
        cluster_addr: n.cluster_addr,
        mqtt_addr: n.mqtt_addr,
        state: NodeState::Healthy,
        groups: n.groups,
        connection_count: 0,
        is_local: false,
    }
}

/// The peers after recording, in order, the announced nodes whose addresses are valid.
pub open spec fn peers_after_join(
    peers: Map<Seq<char>, NodeView>,
    nodes: Seq<SnapshotView>,
    valid: Seq<bool>,
) -> Map<Seq<char>, NodeView>
    decreases nodes.len(),
{
    if nodes.len() == 0 {
        peers
    } else {
        let prev = peers_after_join(peers, nodes.drop_last(), valid);
        let i = nodes.len() - 1;
        if i < valid.len() && valid[i] {
            prev.insert(nodes[i].name, announced_peer(nodes[i]))
        } else {
            prev
        }
    }
}

/// What came of a join attempt.
#[derive(PartialEq, Eq, Structural, Clone, Copy, Debug)]
pub enum JoinOutcome {
    /// Accepted; the response announced this many nodes.
    Joined(usize),
    /// The peer refused the join.
    Rejected,
    /// The reply was not a join response.
    NotAResponse,
}

// ---------------------------------------------------------------------------
// The coordinator
// ---------------------------------------------------------------------------

/// A message to be sent to one peer.
pub struct Outgoing {
    /// Name of the receiving peer.
    pub peer_name: String,
    /// Cluster address of the receiving peer.
    pub addr: String,
    /// The message.
    pub message: ClusterMessage,
}

/// The same message, once to every peer, at the peer's cluster address.
pub open spec fn sends_to_all_peers(
    out: Seq<Outgoing>,
    peers: Map<Seq<char>, NodeView>,
    msg: MessageView,
) -> bool {
    &&& out.len() == peers.len()
    &&& forall|i: int|
        0 <= i < out.len() ==> peers.contains_key(#[trigger] out[i].peer_name@) && out[i].addr@
            == peers[out[i].peer_name@].cluster_addr && out[i].message@ == msg
    &&& forall|i: int, j: int|
        0 <= i < out.len() && 0 <= j < out.len() && i != j ==> #[trigger] out[i].peer_name@
            != #[trigger] out[j].peer_name@
    &&& forall|k: Seq<char>| #[trigger]
        peers.contains_key(k) ==> exists|i: int| 0 <= i < out.len() && out[i].peer_name@ == k
}

/// What handling a peer message received at `now` does: the replies, and
/// the peers, assignments and retained messages afterwards.
pub open spec fn message_outcome(
    before: ClusterCoordinator,
    after: ClusterCoordinator,
    msg: ClusterMessage,
    sender_addr: Seq<char>,
    addresses_valid: bool,
    res: Result<Vec<ClusterMessage>, PeerError>,
    now: Instant,
) -> bool {
    match msg {
        ClusterMessage::JoinRequest { node_name, mqtt_addr, cluster_addr, assigned_groups } => if !addresses_valid {
            &&& res == Err::<Vec<ClusterMessage>, PeerError>(PeerError::InvalidAddress)
            &&& after.peers() == before.peers()
            &&& after.assignments() == before.assignments()
            &&& after.retained() == before.retained()
        } else {
            &&& after.peers() == before.peers().insert(
                node_name@,
                NodeView {
                    name: node_name@,
                    cluster_addr: cluster_addr@,
                    mqtt_addr: mqtt_addr@,
                    state: NodeState::Healthy,
                    groups: text_set(assigned_groups@),
                    connection_count: 0,
                    is_local: false,
                },
            )
            &&& after.assignments() == before.assignments()
            &&& after.retained() == before.retained()
            &&& res matches Ok(r) && r@.len() == 1 && is_join_reply(
                r@[0]@,
                before.local(),
                after.peers(),
                node_name@,
                before.assignments(),
            )
        },
        ClusterMessage::Heartbeat { node_name, mqtt_addr, assigned_groups, connection_count } => {
            &&& res matches Ok(r) && r@.len() == 0
            &&& after.assignments() == before.assignments()
            &&& after.retained() == before.retained()
            &&& before.peers().contains_key(node_name@) ==> after.peers()
                == before.peers().insert(
                node_name@,
                NodeView {
                    state: NodeState::Healthy,
                    groups: text_set(assigned_groups@),
                    connection_count: connection_count,
                    ..before.peers()[node_name@]
                },
            )
            &&& !before.peers().contains_key(node_name@) && addresses_valid ==> after.peers()
                == before.peers().insert(
                node_name@,
                NodeView {
                    name: node_name@,
                    cluster_addr: sender_addr,
                    mqtt_addr: mqtt_addr@,
                    state: NodeState::Joining,
                    groups: Set::<Seq<char>>::empty(),
                    connection_count: 0,
                    is_local: false,
                },
            )
            &&& !before.peers().contains_key(node_name@) && !addresses_valid ==> after.peers()
                == before.peers()
            &&& before.peers().contains_key(node_name@) ==> after.peer_heartbeat(node_name@) == now
        },
        ClusterMessage::GroupAssigned { group, node_name } => {
            &&& res matches Ok(r) && r@.len() == 0
            &&& after.peers() == before.peers()
            &&& after.retained() == before.retained()
            &&& after.assignments() == before.assignments().insert(group@, node_name@)
        },
        ClusterMessage::GroupUnassigned { group, previous_node } => {
            &&& res matches Ok(r) && r@.len() == 0
            &&& after.peers() == before.peers()
            &&& after.retained() == before.retained()
            &&& after.assignments() == if before.assignments().contains_key(group@)
                && before.assignments()[group@] == previous_node@ {
                before.assignments().remove(group@)
            } else {
                before.assignments()
            }
        },
        ClusterMessage::RetainedSync { topic, payload, source_node } => {
            &&& res matches Ok(r) && r@.len() == 0
            &&& after.peers() == before.peers()
            &&& after.assignments() == before.assignments()
            &&& exists|timestamp: u64|
                after.retained() == #[trigger] crate::cluster::retained::spec_after_sync(
                    before.retained(),
                    RetainedMessage { topic, payload, timestamp, source_node },
                )
        },
        ClusterMessage::RetainedRequest { topic_pattern } => {
            &&& res matches Ok(r) && syncs_matching(
                r@,
                before.retained(),
                topic_pattern@,
                before.local().name,
            )
            &&& after.peers() == before.peers()
            &&& after.assignments() == before.assignments()
            &&& after.retained() == before.retained()
        },
        ClusterMessage::JoinResponse { .. } => {
            &&& res matches Ok(r) && r@.len() == 0
            &&& after.peers() == before.peers()
            &&& after.assignments() == before.assignments()
            &&& after.retained() == before.retained()
        },
    }
}

/// Cluster coordinator: the local node, its peers, dynamic group
/// assignments and the retained message store.
pub struct ClusterCoordinator {
    config: ClusterConfig,
    local_node: NodeInfo,
    peers: DashMap<String, NodeInfo>,
    group_assignments: Vec<GroupAssignment>,
    retained_store: RetainedStore,
    enabled: bool,
}

impl ClusterCoordinator {
    /// The local node.
    pub closed spec fn local(&self) -> NodeView {
        self.local_node@
    }

    /// The known peers, by name.
    pub closed spec fn peers(&self) -> Map<Seq<char>, NodeView> {
        peer_entries(self.peers).map_values(|n: NodeInfo| n@)
    }

    /// When the last heartbeat of a known peer was received.
    pub closed spec fn peer_heartbeat(&self, name: Seq<char>) -> Instant {
        peer_entries(self.peers)[name].last_heartbeat
    }

    /// The dynamic group assignments: group to node name.
    pub closed spec fn assignments(&self) -> Map<Seq<char>, Seq<char>> {
        assignment_map(self.group_assignments@)
    }

    /// The retained messages, by topic.
    pub closed spec fn retained(&self) -> Map<Seq<char>, RetainedMessage> {
        self.retained_store.entries()
    }

    /// The source node name recorded on locally stored retained messages.
    pub closed spec fn retained_source(&self) -> String {
        self.retained_store.spec_node_name()
    }

    /// Whether clustering is enabled.
    pub closed spec fn enabled(&self) -> bool {
        self.enabled
    }

    /// The configured static peer addresses.
    pub closed spec fn static_peer_addrs(&self) -> Seq<String> {
        self.config.discovery.static_peers@
    }

    /// Well-formed: peers are stored under their names and none is down
    /// (down peers are removed), group lists hold no duplicates, each group
    /// is assigned at most once, and retained messages are stored under
    /// their topics.
    pub closed spec fn wf(&self) -> bool {
        &&& self.local_node.wf()
        &&& forall|k: Seq<char>| #[trigger]
            peer_entries(self.peers).contains_key(k) ==> peer_entries(self.peers)[k].wf()
                && peer_entries(self.peers)[k]@.name == k
                && peer_entries(self.peers)[k].state != NodeState::Down
        &&& distinct_groups(self.group_assignments@)
        &&& self.retained_store.wf()
        &&& self.retained_store.spec_node_name()@ == self.local_node.name@
    }

    /// Every peer is known under its own name, and none is down.
    pub proof fn lemma_peers_keyed_by_name(&self)
        requires
            self.wf(),
        ensures
            forall|k: Seq<char>| #[trigger] self.peers().contains_key(k) ==> self.peers()[k].name == k
                && self.peers()[k].state != NodeState::Down,
    {
    }

    /// A coordinator for single-node mode: clustering off, a local node
    /// "standalone" handling every group, no peers.
    pub fn disabled() -> (res: Self)
        ensures
            res.wf(),
            !res.enabled(),
            res.local() == (NodeView {
                name: "standalone"@,
                cluster_addr: "127.0.0.1:7000"@,
                mqtt_addr: "127.0.0.1:1883"@,
                state: NodeState::Healthy,
                groups: Set::<Seq<char>>::empty(),
                connection_count: 0,
                is_local: true,
            }),
            res.peers() == Map::<Seq<char>, NodeView>::empty(),
            res.assignments() == Map::<Seq<char>, Seq<char>>::empty(),
            res.retained() == Map::<Seq<char>, RetainedMessage>::empty(),
    {
        let local_node = NodeInfo::local(
            "standalone".to_string(),
            "127.0.0.1:7000".to_string(),
            "127.0.0.1:1883".to_string(),
            Vec::new(),
        );
        let res = ClusterCoordinator {
            config: ClusterConfig::default(),
            local_node,
            peers: peer_map_new(),
            group_assignments: Vec::new(),
            retained_store: RetainedStore::new("standalone".to_string()),
            enabled: false,
        };
        proof {
            assert(text_set(Seq::<String>::empty()) =~= Set::<Seq<char>>::empty());
            assert(res.peers() =~= Map::<Seq<char>, NodeView>::empty());
            assert(res.assignments() =~= Map::<Seq<char>, Seq<char>>::empty());
        }
        res
    }

    /// A coordinator for this node: it listens at the configured bind
    /// address, serves MQTT at `mqtt_addr` and handles the configured groups.
    pub fn new(config: ClusterConfig, node_name: String, mqtt_addr: String) -> (res: Self)
        ensures
            res.wf(),
            res.enabled() == config.enabled,
            res.local() == (NodeView {
                name: node_name@,
                cluster_addr: config.bind_addr@,
                mqtt_addr: mqtt_addr@,
                state: NodeState::Healthy,
                groups: text_set(config.assigned_groups@),
                connection_count: 0,
                is_local: true,
            }),
            res.static_peer_addrs() == config.discovery.static_peers@,
            res.peers() == Map::<Seq<char>, NodeView>::empty(),
            res.assignments() == Map::<Seq<char>, Seq<char>>::empty(),
            res.retained() == Map::<Seq<char>, RetainedMessage>::empty(),
    {
        let local_node = NodeInfo::local(
            node_name.clone(),
            config.bind_addr.clone(),
            mqtt_addr,
            copy_strings(&config.assigned_groups),
        );
        let enabled = config.enabled;
        let res = ClusterCoordinator {
            config,
            local_node,
            peers: peer_map_new(),
            group_assignments: Vec::new(),
            retained_store: RetainedStore::new(node_name),
            enabled,
        };
        proof {
            assert(res.peers() =~= Map::<Seq<char>, NodeView>::empty());
            assert(res.assignments() =~= Map::<Seq<char>, Seq<char>>::empty());
        }
        res
    }

    /// Check if clustering is enabled.
    pub fn is_enabled(&self) -> (res: bool)
        ensures
            res == self.enabled(),
    {
        self.enabled
    }

    /// The configured static peer addresses, to connect to at start.
    pub fn static_peers(&self) -> (res: Vec<String>)
        ensures
            res@ == self.static_peer_addrs(),
    {
        copy_strings(&self.config.discovery.static_peers)
    }

    /// Update the local node's connection count.
    pub fn update_connection_count(&mut self, count: u64)
        requires
            old(self).wf(),
        ensures
            final(self).wf(),
            final(self).local() == (NodeView { connection_count: count, ..old(self).local() }),
            final(self).peers() == old(self).peers(),
            final(self).assignments() == old(self).assignments(),
            final(self).retained() == old(self).retained(),
            final(self).enabled() == old(self).enabled(),
            final(self).static_peer_addrs() == old(self).static_peer_addrs(),
    {
        self.local_node.connection_count = count;
    }

    /// The local node's name.
    pub fn local_node_name(&self) -> (res: String)
        ensures
            res@ == self.local().name,
    {
        self.local_node.name.clone()
    }

    /// Names of all nodes: the local node first, then every peer once, in
    /// an unspecified order.
    pub fn available_nodes(&self) -> (res: Vec<String>)
        requires
            self.wf(),
        ensures
            res@.len() == 1 + self.peers().len(),
            res@[0]@ == self.local().name,
            forall|i: int| 1 <= i < res@.len() ==> self.peers().contains_key(#[trigger] res@[i]@),
            forall|i: int, j: int|
                1 <= i < res@.len() && 1 <= j < res@.len() && i != j ==> #[trigger] res@[i]@
                    != #[trigger] res@[j]@,
            forall|k: Seq<char>| #[trigger]
                self.peers().contains_key(k) ==> exists|i: int| 1 <= i < res@.len() && res@[i]@ == k,
    {
        let entries = peer_map_entries(&self.peers);
        let ghost pm = peer_entries(self.peers);
        let mut out: Vec<String> = Vec::new();
        out.push(self.local_node.name.clone());
        let mut i: usize = 0;
        while i < entries.len()
            invariant
                i <= entries@.len(),
                out@.len() == i + 1,
                out@[0]@ == self.local_node.name@,
                forall|j: int| 0 <= j < i ==> (#[trigger] out@[j + 1])@ == entries@[j].0@,
            decreases entries@.len() - i,
        {
            out.push(entries[i].0.clone());
            i = i + 1;
        }
        proof {
            let peers = self.peers();
            assert(peers.dom() == pm.dom());
            assert forall|a: int| 1 <= a < out@.len() implies peers.contains_key(
                #[trigger] out@[a]@,
            ) by {
                assert(out@[(a - 1) + 1]@ == entries@[a - 1].0@);
                assert(pm.contains_key(entries@[a - 1].0@));
            }
            assert forall|a: int, b: int|
                1 <= a < out@.len() && 1 <= b < out@.len() && a != b implies #[trigger] out@[a]@
                != #[trigger] out@[b]@ by {
                assert(out@[(a - 1) + 1]@ == entries@[a - 1].0@);
                assert(out@[(b - 1) + 1]@ == entries@[b - 1].0@);
                assert(entries@[a - 1].0@ != entries@[b - 1].0@);
            }
            assert forall|k: Seq<char>| #[trigger] peers.contains_key(k) implies exists|a: int|
                1 <= a < out@.len() && out@[a]@ == k by {
                assert(pm.contains_key(k));
                let j = choose|j: int| 0 <= j < entries@.len() && entries@[j].0@ == k;
                assert(out@[j + 1]@ == k);
            }
        }
        out
    }

    /// The retained message store.
    pub fn retained_store(&self) -> (res: &RetainedStore)
        ensures
            res.entries() == self.retained(),
    {
        &self.retained_store
    }

    /// All retained messages, each once, in an unspecified order.
    pub fn get_retained_messages(&self) -> (res: Vec<RetainedMessage>)
        requires
            self.wf(),
        ensures
            res@.len() == self.retained().len(),
            forall|i: int|
                0 <= i < res@.len() ==> self.retained().contains_key(#[trigger] res@[i].topic@)
                    && res@[i]@ == self.retained()[res@[i].topic@]@,
            forall|i: int, j: int|
                0 <= i < res@.len() && 0 <= j < res@.len() && i != j ==> #[trigger] res@[i].topic@
                    != #[trigger] res@[j].topic@,
            forall|k: Seq<char>|
                #[trigger] self.retained().contains_key(k) ==> exists|i: int|
                    0 <= i < res@.len() && res@[i].topic@ == k,
    {
        self.retained_store.get_all()
    }

    /// The number of retained messages.
    pub fn retained_count(&self) -> (res: usize)
        ensures
            res == self.retained().len(),
    {
        self.retained_store.count()
    }

    /// The heartbeat announcing the local node's state.
    pub fn heartbeat(&self) -> (res: ClusterMessage)
        ensures
            res@ == (MessageView::Heartbeat {
                node_name: self.local().name,
                mqtt_addr: self.local().mqtt_addr,
                groups: self.local().groups,
                connection_count: self.local().connection_count,
            }),
    {
        ClusterMessage::Heartbeat {
            node_name: self.local_node.name.clone(),
            mqtt_addr: self.local_node.mqtt_addr.clone(),
            assigned_groups: copy_strings(&self.local_node.assigned_groups),
            connection_count: self.local_node.connection_count,
        }
    }

    /// The heartbeat of the local node, addressed to every peer.
    pub fn heartbeat_messages(&self) -> (res: Vec<Outgoing>)
        requires
            self.wf(),
        ensures
            sends_to_all_peers(
                res@,
                self.peers(),
                MessageView::Heartbeat {
                    node_name: self.local().name,
                    mqtt_addr: self.local().mqtt_addr,
                    groups: self.local().groups,
                    connection_count: self.local().connection_count,
                },
            ),
    {
        let msg = self.heartbeat();
        self.to_all_peers(&msg)
    }

    /// The request this node sends to join a cluster.
    pub fn join_request(&self) -> (res: ClusterMessage)
        ensures
            res@ == (MessageView::JoinRequest {
                node_name: self.local().name,
                mqtt_addr: self.local().mqtt_addr,
                cluster_addr: self.local().cluster_addr,
                groups: self.local().groups,
            }),
    {
        ClusterMessage::JoinRequest {
            node_name: self.local_node.name.clone(),
            mqtt_addr: self.local_node.mqtt_addr.clone(),
            cluster_addr: self.local_node.cluster_addr.clone(),
            assigned_groups: copy_strings(&self.local_node.assigned_groups),
        }
    }

    /// Store a retained message published here and sync it to every peer.
    pub fn store_retained(&mut self, topic: String, payload: Vec<u8>) -> (res: Vec<Outgoing>)
        requires
            old(self).wf(),
        ensures
            final(self).wf(),
            final(self).local() == old(self).local(),
            final(self).peers() == old(self).peers(),
            final(self).assignments() == old(self).assignments(),
            final(self).enabled() == old(self).enabled(),
            final(self).static_peer_addrs() == old(self).static_peer_addrs(),
            exists|timestamp: u64|
                final(self).retained() == old(self).retained().insert(
                    topic@,
                    RetainedMessage {
                        topic,
                        payload,
                        timestamp,
                        source_node: old(self).retained_source(),
                    },
                ),
            sends_to_all_peers(
                res@,
                old(self).peers(),
                MessageView::RetainedSync {
                    topic: topic@,
                    payload: payload@,
                    source_node: old(self).local().name,
                },
            ),
    {
        let msg = ClusterMessage::RetainedSync {
            topic: topic.clone(),
            payload: crate::cluster::retained::clone_bytes(&payload),
            source_node: self.local_node.name.clone(),
        };
        let timestamp = crate::cluster::retained::unix_now_secs();
        let ghost t = topic;
        let ghost p = payload;
        self.retained_store.store_with_timestamp(topic, payload, timestamp);
        assert(self.retained() == old(self).retained().insert(
            t@,
            RetainedMessage { topic: t, payload: p, timestamp, source_node: old(self).retained_source() },
        ));
        self.to_all_peers(&msg)
    }

    /// Ask every peer for its retained messages matching a pattern.
    pub fn request_retained(&self, topic_pattern: &str) -> (res: Vec<Outgoing>)
        requires
            self.wf(),
        ensures
            sends_to_all_peers(
                res@,
                self.peers(),
                MessageView::RetainedRequest { topic_pattern: topic_pattern@ },
            ),
    {
        let msg = ClusterMessage::RetainedRequest { topic_pattern: topic_pattern.to_string() };
        self.to_all_peers(&msg)
    }

    /// Whether a node of this name is known: the local node or a peer.
    pub open spec fn spec_knows_node(&self, name: Seq<char>) -> bool {
        name == self.local().name || self.peers().contains_key(name)
    }

    /// Whether reassigning `group` to `target` changes anything: the node is
    /// known and the group is not already assigned to it.
    pub open spec fn reassign_changes(&self, group: Seq<char>, target: Seq<char>) -> bool {
        self.spec_knows_node(target) && !(self.assignments().contains_key(group)
            && self.assignments()[group] == target)
    }

    /// Reassign a group to a node. Nothing changes, and nothing is sent,
    /// when the node is unknown or the group is already assigned to it;
    /// otherwise the assignment is recorded and announced to every peer.
    /// The boolean says whether the assignment changed.
    pub fn reassign_group(&mut self, group: String, target_node: String) -> (res: (bool, Vec<Outgoing>))
        requires
            old(self).wf(),
        ensures
            final(self).wf(),
            final(self).local() == old(self).local(),
            final(self).peers() == old(self).peers(),
            final(self).retained() == old(self).retained(),
            final(self).enabled() == old(self).enabled(),
            final(self).static_peer_addrs() == old(self).static_peer_addrs(),
            res.0 == old(self).reassign_changes(group@, target_node@),
            res.0 ==> final(self).assignments() == old(self).assignments().insert(group@, target_node@),
            res.0 ==> sends_to_all_peers(
                res.1@,
                old(self).peers(),
                MessageView::GroupAssigned { group: group@, node_name: target_node@ },
            ),
            !res.0 ==> final(self).assignments() == old(self).assignments() && res.1@.len() == 0,
    {
        let node_exists = if self.local_node.name == target_node {
            true
        } else {
            peer_map_contains(&self.peers, target_node.as_str())
        };
        if !node_exists {
            return (false, Vec::new());
        }
        proof {
            lemma_assignments_all(self.group_assignments@);
        }
        match find_group(&self.group_assignments, group.as_str()) {
            Some(i) => {
                if self.group_assignments[i].node_name == target_node {
                    return (false, Vec::new());
                }
            },
            None => {
                assert(!self.assignments().contains_key(group@)) by {
                    if self.assignments().contains_key(group@) {
                        let j = choose|j: int| 0 <= j < self.group_assignments@.len() && (#[trigger] self.group_assignments@[j]).group@ == group@;
                    }
                }
            },
        }
        let msg = ClusterMessage::GroupAssigned {
            group: group.clone(),
            node_name: target_node.clone(),
        };
        set_assignment(&mut self.group_assignments, group, target_node);
        let out = self.to_all_peers(&msg);
        (true, out)
    }

    /// Remove the dynamic assignment of a group and announce it to every
    /// peer; nothing happens when the group has none. The boolean says
    /// whether an assignment was removed.
    pub fn unassign_group(&mut self, group: String) -> (res: (bool, Vec<Outgoing>))
        requires
            old(self).wf(),
        ensures
            final(self).wf(),
            final(self).local() == old(self).local(),
            final(self).peers() == old(self).peers(),
            final(self).retained() == old(self).retained(),
            final(self).enabled() == old(self).enabled(),
            final(self).static_peer_addrs() == old(self).static_peer_addrs(),
            res.0 == old(self).assignments().contains_key(group@),
            final(self).assignments() == old(self).assignments().remove(group@),
            res.0 ==> sends_to_all_peers(
                res.1@,
                old(self).peers(),
                MessageView::GroupUnassigned {
                    group: group@,
                    previous_node: old(self).assignments()[group@],
                },
            ),
            !res.0 ==> res.1@.len() == 0,
    {
        let previous = remove_assignment(&mut self.group_assignments, group.as_str());
        match previous {
            Some(prev) => {
                let msg = ClusterMessage::GroupUnassigned { group, previous_node: prev };
                let out = self.to_all_peers(&msg);
                (true, out)
            },
            None => (false, Vec::new()),
        }
    }

    /// Find the node handling a group: the local node if it handles it,
    /// else the peer it is dynamically assigned to, else some peer that
    /// handles it (which one, when several do, is unspecified).
    pub fn find_node_for_group(&self, group: &str) -> (res: Option<NodeInfoResponse>)
        requires
            self.wf(),
        ensures
            spec_handles_group(self.local().groups, group@) ==> (res matches Some(r) && r@
                == self.local()),
            !spec_handles_group(self.local().groups, group@) && self.assignments().contains_key(
                group@,
            ) && self.peers().contains_key(self.assignments()[group@]) ==> (res matches Some(r)
                && r@ == self.peers()[self.assignments()[group@]]),
            !spec_handles_group(self.local().groups, group@) && !(self.assignments().contains_key(
                group@,
            ) && self.peers().contains_key(self.assignments()[group@])) ==> match res {
                Some(r) => exists|k: Seq<char>|
                    self.peers().contains_key(k) && spec_handles_group(
                        #[trigger] self.peers()[k].groups,
                        group@,
                    ) && r@ == self.peers()[k],
                None => forall|k: Seq<char>|
                    self.peers().contains_key(k) ==> !spec_handles_group(
                        #[trigger] self.peers()[k].groups,
                        group@,
                    ),
            },
    {
        if self.local_node.handles_group(group) {
            return Some(NodeInfoResponse::from_node(&self.local_node));
        }
        proof {
            lemma_assignments_all(self.group_assignments@);
        }
        let ghost assigned_peer = self.assignments().contains_key(group@) && self.peers().contains_key(
            self.assignments()[group@],
        );
        match find_group(&self.group_assignments, group) {
            Some(i) => {
                match peer_map_get(&self.peers, self.group_assignments[i].node_name.as_str()) {
                    Some(peer) => {
                        return Some(NodeInfoResponse::from_node(&peer));
                    },
                    None => {},
                }
            },
            None => {
                assert(!self.assignments().contains_key(group@)) by {
                    if self.assignments().contains_key(group@) {
                        let j = choose|j: int|
                            0 <= j < self.group_assignments@.len()
                                && (#[trigger] self.group_assignments@[j]).group@ == group@;
                    }
                }
            },
        }
        assert(!assigned_peer);
        let entries = peer_map_entries(&self.peers);
        let ghost pm = peer_entries(self.peers);
        let mut i: usize = 0;
        while i < entries.len()
            invariant
                i <= entries@.len(),
                pm == peer_entries(self.peers),
                !spec_handles_group(self.local().groups, group@),
                !(self.assignments().contains_key(group@) && self.peers().contains_key(
                    self.assignments()[group@],
                )),
                forall|j: int|
                    0 <= j < entries@.len() ==> pm.contains_key(#[trigger] entries@[j].0@)
                        && same_node(entries@[j].1, pm[entries@[j].0@]),
                forall|j: int|
                    0 <= j < i ==> !spec_handles_group((#[trigger] entries@[j]).1@.groups, group@),
            decreases entries@.len() - i,
        {
            if entries[i].1.handles_group(group) {
                let r = NodeInfoResponse::from_node(&entries[i].1);
                proof {
                    let k = entries@[i as int].0@;
                    assert(self.peers().contains_key(k));
                    assert(self.peers()[k] == entries@[i as int].1@);
                }
                return Some(r);
            }
            i = i + 1;
        }
        proof {
            assert forall|k: Seq<char>| self.peers().contains_key(k) implies !spec_handles_group(
                #[trigger] self.peers()[k].groups,
                group@,
            ) by {
                assert(pm.contains_key(k));
                let j = choose|j: int| 0 <= j < entries@.len() && entries@[j].0@ == k;
                assert(self.peers()[k] == entries@[j].1@);
            }
        }
        None
    }

    /// Reports of all nodes: the local node first, then every peer once,
    /// in an unspecified order.
    pub fn get_nodes(&self) -> (res: Vec<NodeInfoResponse>)
        requires
            self.wf(),
        ensures
            res@.len() == 1 + self.peers().len(),
            res@[0]@ == self.local(),
            forall|i: int|
                1 <= i < res@.len() ==> self.peers().contains_key(#[trigger] res@[i]@.name)
                    && self.peers()[res@[i]@.name] == res@[i]@,
            forall|i: int, j: int|
                1 <= i < res@.len() && 1 <= j < res@.len() && i != j ==> #[trigger] res@[i]@.name
                    != #[trigger] res@[j]@.name,
            forall|k: Seq<char>| #[trigger]
                self.peers().contains_key(k) ==> exists|i: int|
                    1 <= i < res@.len() && res@[i]@.name == k,
    {
        let entries = peer_map_entries(&self.peers);
        let ghost pm = peer_entries(self.peers);
        let mut out: Vec<NodeInfoResponse> = Vec::new();
        out.push(NodeInfoResponse::from_node(&self.local_node));
        let mut i: usize = 0;
        while i < entries.len()
            invariant
                i <= entries@.len(),
                out@.len() == i + 1,
                out@[0]@ == self.local_node@,
                forall|j: int| 0 <= j < i ==> (#[trigger] out@[j + 1])@ == entries@[j].1@,
            decreases entries@.len() - i,
        {
            out.push(NodeInfoResponse::from_node(&entries[i].1));
            i = i + 1;
        }
        proof {
            let peers = self.peers();
            assert(peers.dom() == pm.dom());
            assert forall|a: int| 1 <= a < out@.len() implies peers.contains_key(
                #[trigger] out@[a]@.name,
            ) && peers[out@[a]@.name] == out@[a]@ by {
                assert(out@[(a - 1) + 1]@ == entries@[a - 1].1@);
                let k = entries@[a - 1].0@;
                assert(pm.contains_key(k));
                assert(pm[k]@.name == k);
            }
            assert forall|a: int, b: int|
                1 <= a < out@.len() && 1 <= b < out@.len() && a != b implies #[trigger] out@[a]@.name
                != #[trigger] out@[b]@.name by {
                assert(out@[(a - 1) + 1]@ == entries@[a - 1].1@);
                assert(out@[(b - 1) + 1]@ == entries@[b - 1].1@);
                assert(pm.contains_key(entries@[a - 1].0@));
                assert(pm.contains_key(entries@[b - 1].0@));
                assert(entries@[a - 1].0@ != entries@[b - 1].0@);
            }
            assert forall|k: Seq<char>| #[trigger] peers.contains_key(k) implies exists|a: int|
                1 <= a < out@.len() && out@[a]@.name == k by {
                assert(pm.contains_key(k));
                let j = choose|j: int| 0 <= j < entries@.len() && entries@[j].0@ == k;
                assert(out@[j + 1]@ == entries@[j].1@);
            }
        }
        out
    }

    /// Group assignments of the whole cluster: the local node's groups,
    /// overridden by the groups peers announce (when several peers announce
    /// a group, which of them is recorded is unspecified), overridden by the
    /// dynamic assignments.
    pub fn get_group_assignments(&self) -> (res: Vec<GroupAssignment>)
        requires
            self.wf(),
        ensures
            distinct_groups(res@),
            forall|g: Seq<char>| #[trigger]
                assignment_map(res@).contains_key(g) <==> (self.local().groups.contains(g)
                    || spec_peer_has_group(self.peers(), g) || self.assignments().contains_key(g)),
            forall|g: Seq<char>|
                #[trigger] assignment_map(res@).contains_key(g) && self.assignments().contains_key(g)
                    ==> assignment_map(res@)[g] == self.assignments()[g],
            forall|g: Seq<char>|
                #[trigger] assignment_map(res@).contains_key(g) && !self.assignments().contains_key(g)
                    && spec_peer_has_group(self.peers(), g) ==> exists|k: Seq<char>|
                    self.peers().contains_key(k) && (#[trigger] self.peers()[k]).groups.contains(g)
                        && assignment_map(res@)[g] == k,
            forall|g: Seq<char>|
                #[trigger] assignment_map(res@).contains_key(g) && !self.assignments().contains_key(g)
                    && !spec_peer_has_group(self.peers(), g) ==> assignment_map(res@)[g]
                    == self.local().name,
    {
        let mut out: Vec<GroupAssignment> = Vec::new();
        let ghost lg = self.local().groups;
        let ghost ln = self.local().name;
        assign_all(&mut out, &self.local_node.assigned_groups, &self.local_node.name);
        proof {
            assert(assignment_map(Seq::<GroupAssignment>::empty()) =~= Map::<Seq<char>, Seq<char>>::empty());
        }
        let entries = peer_map_entries(&self.peers);
        let ghost pm = peer_entries(self.peers);
        let ghost e = entries@;
        let mut i: usize = 0;
        while i < entries.len()
            invariant
                i <= e.len(),
                e == entries@,
                pm == peer_entries(self.peers),
                lg == self.local().groups,
                ln == self.local().name,
                distinct_groups(out@),
                forall|j: int|
                    0 <= j < e.len() ==> pm.contains_key(#[trigger] e[j].0@) && same_node(e[j].1, pm[e[j].0@]),
                forall|k: Seq<char>| #[trigger] pm.contains_key(k) ==> pm[k]@.name == k,
                forall|g: Seq<char>| #[trigger]
                    assignment_map(out@).contains_key(g) <==> (lg.contains(g) || listed_has(e, i as int, g)),
                forall|g: Seq<char>|
                    #[trigger] assignment_map(out@).contains_key(g) && listed_has(e, i as int, g)
                        ==> exists|j: int|
                        0 <= j < i && #[trigger] groups_at(e, j).contains(g) && assignment_map(out@)[g]
                            == e[j].0@,
                forall|g: Seq<char>|
                    #[trigger] assignment_map(out@).contains_key(g) && !listed_has(e, i as int, g)
                        ==> assignment_map(out@)[g] == ln,
            decreases e.len() - i,
        {
            let ghost before = assignment_map(out@);
            proof {
                assert(pm.contains_key(e[i as int].0@));
            }
            assign_all(&mut out, &entries[i].1.assigned_groups, &entries[i].1.name);
            proof {
                let gi = groups_at(e, i as int);
                let ni = e[i as int].0@;
                assert(entries[i as int].1.name@ == ni);
                assert forall|g: Seq<char>| #[trigger] listed_has(e, i + 1, g) <==> (listed_has(e, i as int, g) || gi.contains(g)) by {
                    if listed_has(e, i + 1, g) {
                        let j = choose|j: int| 0 <= j < i + 1 && #[trigger] groups_at(e, j).contains(g);
                        if j < i {
                            assert(listed_has(e, i as int, g));
                        }
                    }
                    if listed_has(e, i as int, g) {
                        let j = choose|j: int| 0 <= j < i && #[trigger] groups_at(e, j).contains(g);
                        assert(0 <= j < i + 1 && groups_at(e, j).contains(g));
                    }
                    if gi.contains(g) {
                        assert(groups_at(e, i as int).contains(g));
                    }
                }
                assert forall|g: Seq<char>|
                    #[trigger] assignment_map(out@).contains_key(g) && listed_has(e, i + 1, g)
                    implies exists|j: int|
                    0 <= j < i + 1 && #[trigger] groups_at(e, j).contains(g) && assignment_map(out@)[g]
                        == e[j].0@ by {
                    if gi.contains(g) {
                        assert(groups_at(e, i as int).contains(g));
                    } else {
                        let j = choose|j: int|
                            0 <= j < i && #[trigger] groups_at(e, j).contains(g) && before[g] == e[j].0@;
                        assert(0 <= j < i + 1 && groups_at(e, j).contains(g));
                    }
                }
            }
            i = i + 1;
        }
        let ghost mid = assignment_map(out@);
        override_with(&mut out, &self.group_assignments);
        proof {
            let peers = self.peers();
            let d = self.assignments();
            assert(peers.dom() == pm.dom());
            assert forall|g: Seq<char>| listed_has(e, e.len() as int, g) <==> spec_peer_has_group(peers, g) by {
                if listed_has(e, e.len() as int, g) {
                    let j = choose|j: int| 0 <= j < e.len() && #[trigger] groups_at(e, j).contains(g);
                    let k = e[j].0@;
                    assert(pm.contains_key(k));
                    assert(peers[k] == pm[k]@);
                    assert(peers[k].groups.contains(g));
                }
                if spec_peer_has_group(peers, g) {
                    let k = choose|k: Seq<char>| peers.contains_key(k) && (#[trigger] peers[k]).groups.contains(g);
                    assert(pm.contains_key(k));
                    let j = choose|j: int| 0 <= j < e.len() && e[j].0@ == k;
                    assert(groups_at(e, j).contains(g));
                }
            }
            assert forall|g: Seq<char>|
                #[trigger] assignment_map(out@).contains_key(g) && !d.contains_key(g)
                    && spec_peer_has_group(peers, g) implies exists|k: Seq<char>|
                    peers.contains_key(k) && (#[trigger] peers[k]).groups.contains(g)
                        && assignment_map(out@)[g] == k by {
                assert(listed_has(e, e.len() as int, g));
                assert(mid.contains_key(g));
                let j = choose|j: int|
                    0 <= j < e.len() && #[trigger] groups_at(e, j).contains(g) && mid[g] == e[j].0@;
                let k = e[j].0@;
                assert(pm.contains_key(k));
                assert(peers[k] == pm[k]@);
            }
        }
        out
    }

    /// Apply a health check with the given seconds since each peer's last
    /// heartbeat: a peer named in `elapsed` becomes suspect or down by its
    /// time (peers not named keep their state); peers that are down are
    /// removed together with the dynamic assignments to them. Returns the
    /// removed names.
    pub fn apply_peer_health(
        &mut self,
        elapsed: &Vec<(String, u64)>,
        suspect_after_secs: u64,
        down_after_secs: u64,
    ) -> (res: Vec<String>)
        requires
            old(self).wf(),
        ensures
            final(self).wf(),
            final(self).local() == old(self).local(),
            final(self).retained() == old(self).retained(),
            final(self).enabled() == old(self).enabled(),
            final(self).static_peer_addrs() == old(self).static_peer_addrs(),
            final(self).peers() == peers_after_health(
                old(self).peers(),
                elapsed@,
                suspect_after_secs,
                down_after_secs,
            ),
            text_set(res@) == down_after_health(
                old(self).peers(),
                elapsed@,
                suspect_after_secs,
                down_after_secs,
            ),
            final(self).assignments() == without_nodes(old(self).assignments(), text_set(res@)),
    {
        let entries = peer_map_entries(&self.peers);
        let ghost pm0 = peer_entries(self.peers);
        let ghost e = entries@;
        let ghost el = elapsed@;
        let ghost mut states: Seq<NodeState> = Seq::empty();
        let mut down: Vec<String> = Vec::new();
        let mut i: usize = 0;
        while i < entries.len()
            invariant
                i <= e.len(),
                e == entries@,
                el == elapsed@,
                e.len() == pm0.len(),
                states.len() == i,
                self.local_node == old(self).local_node,
                self.group_assignments == old(self).group_assignments,
                self.retained_store == old(self).retained_store,
                self.enabled == old(self).enabled,
                self.config == old(self).config,
                pm0 == peer_entries(old(self).peers),
                forall|k: Seq<char>| #[trigger]
                    pm0.contains_key(k) ==> pm0[k].wf() && pm0[k]@.name == k,
                peer_entries(self.peers).dom() == pm0.dom(),
                forall|j: int|
                    0 <= j < e.len() ==> pm0.contains_key(#[trigger] e[j].0@) && same_node(e[j].1, pm0[e[j].0@]),
                forall|a: int, b: int|
                    0 <= a < e.len() && 0 <= b < e.len() && a != b ==> #[trigger] e[a].0@ != #[trigger] e[b].0@,
                forall|k: Seq<char>| #[trigger] pm0.contains_key(k) ==> exists|j: int| 0 <= j < e.len() && e[j].0@ == k,
                forall|j: int|
                    i <= j < e.len() ==> same_node(e[j].1, #[trigger] peer_entries(self.peers)[e[j].0@]),
                forall|j: int|
                    0 <= j < i ==> #[trigger] slot_checked(peer_entries(self.peers), e, states, el, j, suspect_after_secs, down_after_secs),
                forall|t: Seq<char>| #[trigger] text_set(down@).contains(t) <==> exists|j: int|
                    0 <= j < i && e[j].0@ == t && #[trigger] states[j] == NodeState::Down,
            decreases e.len() - i,
        {
            let mut node = entries[i].1.duplicate();
            let given = lookup_elapsed(elapsed, entries[i].0.as_str());
            match given {
                Some(x) => node.apply_health_check(x, suspect_after_secs, down_after_secs),
                None => {},
            }
            proof {
                assert(node@ == peer_after_check(e[i as int].1@, elapsed_for(el, e[i as int].0@), suspect_after_secs, down_after_secs));
                assert(pm0.contains_key(e[i as int].0@));
                assert(node.wf());
            }
            let is_down = node.state == NodeState::Down;
            let ghost before_down = down@;
            let ghost before_states = states;
            if is_down {
                down.push(node.name.clone());
            }
            proof {
                states = states.push(node.state);
                assert(pm0.contains_key(e[i as int].0@));
                assert(node.name@ == e[i as int].0@);
            }
            let ghost nv = node;
            let ghost pm_before = peer_entries(self.peers);
            proof {
                assert(nv.wf());
                assert(nv@.name == e[i as int].0@);
                assert(nv.state == states[i as int]);
                assert(nv@ == peer_after_check(e[i as int].1@, elapsed_for(el, e[i as int].0@), suspect_after_secs, down_after_secs));
            }
            peer_map_insert(&mut self.peers, entries[i].0.clone(), node);
            proof {
                assert(peer_entries(self.peers)[e[i as int].0@] == nv);
                assert(peer_entries(self.peers).dom() =~= pm0.dom());
                assert forall|j: int| i + 1 <= j < e.len() implies same_node(e[j].1, #[trigger] peer_entries(self.peers)[e[j].0@]) by {
                    assert(e[j].0@ != e[i as int].0@);
                }
                assert forall|j: int| 0 <= j < i + 1 implies #[trigger] slot_checked(peer_entries(self.peers), e, states, el, j, suspect_after_secs, down_after_secs) by {
                    if j < i {
                        assert(e[j].0@ != e[i as int].0@);
                        assert(states[j] == before_states[j]);
                        assert(slot_checked(pm_before, e, before_states, el, j, suspect_after_secs, down_after_secs));
                        assert(pm_before[e[j].0@] == peer_entries(self.peers)[e[j].0@]);
                    } else {
                        assert(j == i);
                    }
                }
                assert forall|t: Seq<char>| #[trigger] text_set(down@).contains(t) <==> exists|j: int|
                    0 <= j < i + 1 && e[j].0@ == t && #[trigger] states[j] == NodeState::Down by {
                    if text_set(down@).contains(t) {
                        let m = choose|m: int| 0 <= m < down@.len() && down@[m]@ == t;
                        if m < before_down.len() {
                            assert(down@[m] == before_down[m]);
                            assert(text_set(before_down).contains(t));
                            let j = choose|j: int| 0 <= j < i && e[j].0@ == t && #[trigger] before_states[j] == NodeState::Down;
                            assert(states[j] == before_states[j]);
                        } else {
                            assert(states[i as int] == NodeState::Down);
                        }
                    }
                    if exists|j: int| 0 <= j < i + 1 && e[j].0@ == t && #[trigger] states[j] == NodeState::Down {
                        let j = choose|j: int| 0 <= j < i + 1 && e[j].0@ == t && #[trigger] states[j] == NodeState::Down;
                        if j < i {
                            assert(states[j] == before_states[j]);
                            assert(text_set(before_down).contains(t));
                            let m = choose|m: int| 0 <= m < before_down.len() && before_down[m]@ == t;
                            assert(down@[m] == before_down[m]);
                        } else {
                            assert(down@[down@.len() - 1]@ == t);
                        }
                    }
                }
            }
            i = i + 1;
        }
        let ghost pm1 = peer_entries(self.peers);
        let ghost a0 = self.assignments();
        let ghost dset = text_set(down@);
        let mut m: usize = 0;
        while m < down.len()
            invariant
                m <= down@.len(),
                self.local_node == old(self).local_node,
                self.retained_store == old(self).retained_store,
                self.enabled == old(self).enabled,
                self.config == old(self).config,
                distinct_groups(self.group_assignments@),
                peer_entries(self.peers) == pm1.remove_keys(text_set(down@.take(m as int))),
                assignment_map(self.group_assignments@) == without_nodes(a0, text_set(down@.take(m as int))),
            decreases down@.len() - m,
        {
            let ghost prev = text_set(down@.take(m as int));
            peer_map_remove(&mut self.peers, down[m].as_str());
            remove_assignments_to(&mut self.group_assignments, down[m].as_str());
            proof {
                let next = down@.take(m + 1);
                assert(next == down@.take(m as int).push(down@[m as int]));
                assert forall|t: Seq<char>| text_set(next).contains(t) <==> (prev.contains(t) || t == down@[m as int]@) by {
                    if text_set(next).contains(t) {
                        let q = choose|q: int| 0 <= q < next.len() && next[q]@ == t;
                        if q < m {
                            assert(down@.take(m as int)[q] == next[q]);
                        }
                    }
                    if prev.contains(t) {
                        let q = choose|q: int| 0 <= q < m && down@.take(m as int)[q]@ == t;
                        assert(next[q] == down@.take(m as int)[q]);
                    }
                    if t == down@[m as int]@ {
                        assert(next[m as int] == down@[m as int]);
                    }
                }
                assert(peer_entries(self.peers) =~= pm1.remove_keys(text_set(next)));
                assert(assignment_map(self.group_assignments@) =~= without_nodes(a0, text_set(next)));
            }
            m = m + 1;
        }
        proof {
            assert(down@.take(down@.len() as int) == down@);
            let oldp = old(self).peers();
            let newp = self.peers();
            let target = peers_after_health(oldp, el, suspect_after_secs, down_after_secs);
            let dtarget = down_after_health(oldp, el, suspect_after_secs, down_after_secs);
            assert forall|k: Seq<char>| #[trigger] peer_entries(self.peers).contains_key(k) implies peer_entries(self.peers)[k].wf()
                && peer_entries(self.peers)[k]@.name == k
                && peer_entries(self.peers)[k].state != NodeState::Down by {
                let j = choose|j: int| 0 <= j < e.len() && e[j].0@ == k;
                assert(slot_checked(pm1, e, states, el, j, suspect_after_secs, down_after_secs));
                if states[j] == NodeState::Down {
                    assert(dset.contains(k));
                }
            }
            assert forall|k: Seq<char>| dset.contains(k) <==> #[trigger] dtarget.contains(k) by {
                if dset.contains(k) {
                    let j = choose|j: int| 0 <= j < e.len() && e[j].0@ == k && #[trigger] states[j] == NodeState::Down;
                    assert(slot_checked(pm1, e, states, el, j, suspect_after_secs, down_after_secs));
                    assert(pm0.contains_key(k));
                    assert(oldp[k] == e[j].1@);
                }
                if dtarget.contains(k) {
                    assert(pm0.contains_key(k));
                    let j = choose|j: int| 0 <= j < e.len() && e[j].0@ == k;
                    assert(slot_checked(pm1, e, states, el, j, suspect_after_secs, down_after_secs));
                    assert(oldp[k] == e[j].1@);
                    assert(states[j] == NodeState::Down);
                }
            }
            assert(dset =~= dtarget);
            assert forall|k: Seq<char>| #[trigger] newp.contains_key(k) <==> target.contains_key(k) by {
                if pm0.contains_key(k) {
                    let j = choose|j: int| 0 <= j < e.len() && e[j].0@ == k;
                    assert(slot_checked(pm1, e, states, el, j, suspect_after_secs, down_after_secs));
                    assert(oldp[k] == e[j].1@);
                    assert(dtarget.contains(k) <==> states[j] == NodeState::Down);
                }
            }
            assert forall|k: Seq<char>| #[trigger] newp.contains_key(k) implies newp[k] == target[k] by {
                let j = choose|j: int| 0 <= j < e.len() && e[j].0@ == k;
                assert(slot_checked(pm1, e, states, el, j, suspect_after_secs, down_after_secs));
                assert(oldp[k] == e[j].1@);
            }
            assert(newp =~= target);
        }
        down
    }


    /// Each peer's name with the whole seconds since its last heartbeat, as
    /// the clock reads now.
    fn peer_elapsed(&self) -> (res: Vec<(String, u64)>)
        requires
            self.wf(),
        ensures
            forall|k: Seq<char>| #[trigger]
                self.peers().contains_key(k) ==> exists|j: int| 0 <= j < res@.len() && res@[j].0@ == k,
    {
        let entries = peer_map_entries(&self.peers);
        let ghost pm = peer_entries(self.peers);
        let mut out: Vec<(String, u64)> = Vec::new();
        let mut i: usize = 0;
        while i < entries.len()
            invariant
                i <= entries@.len(),
                out@.len() == i,
                forall|j: int| 0 <= j < i ==> (#[trigger] out@[j]).0@ == entries@[j].0@,
            decreases entries@.len() - i,
        {
            let secs = crate::cluster::node::elapsed_secs(&entries[i].1.last_heartbeat);
            out.push((entries[i].0.clone(), secs));
            i = i + 1;
        }
        proof {
            assert forall|k: Seq<char>| #[trigger] self.peers().contains_key(k) implies exists|j: int|
                0 <= j < out@.len() && out@[j].0@ == k by {
                assert(pm.contains_key(k));
                let j = choose|j: int| 0 <= j < entries@.len() && entries@[j].0@ == k;
                assert(out@[j].0@ == k);
            }
        }
        out
    }

    /// Health check of every peer against the clock: each is marked suspect
    /// or down by the seconds since its last heartbeat; peers found down are
    /// removed together with the dynamic assignments to them. Returns the
    /// removed names.
    pub fn check_peer_health(&mut self, suspect_after_secs: u64, down_after_secs: u64) -> (res: Vec<String>)
        requires
            old(self).wf(),
        ensures
            final(self).wf(),
            final(self).local() == old(self).local(),
            final(self).retained() == old(self).retained(),
            final(self).enabled() == old(self).enabled(),
            final(self).static_peer_addrs() == old(self).static_peer_addrs(),
            exists|elapsed: Seq<(String, u64)>|
                {
                    &&& forall|k: Seq<char>| #[trigger]
                        old(self).peers().contains_key(k) ==> elapsed_for(elapsed, k) is Some
                    &&& final(self).peers() == peers_after_health(
                        old(self).peers(),
                        elapsed,
                        suspect_after_secs,
                        down_after_secs,
                    )
                    &&& text_set(res@) == down_after_health(
                        old(self).peers(),
                        elapsed,
                        suspect_after_secs,
                        down_after_secs,
                    )
                    &&& final(self).assignments() == without_nodes(
                        old(self).assignments(),
                        text_set(res@),
                    )
                },
    {
        let elapsed = self.peer_elapsed();
        proof {
            assert forall|k: Seq<char>| #[trigger] old(self).peers().contains_key(k) implies elapsed_for(
                elapsed@,
                k,
            ) is Some by {
                let j = choose|j: int| 0 <= j < elapsed@.len() && elapsed@[j].0@ == k;
                lemma_elapsed_for_named(elapsed@, k, j);
            }
        }
        self.apply_peer_health(&elapsed, suspect_after_secs, down_after_secs)
    }

    /// The cluster state sent in answer to a join: the local node first,
    /// then every peer except the one joining.
    fn snapshots_except(&self, excluded: &str) -> (res: Vec<NodeSnapshot>)
        requires
            self.wf(),
        ensures
            snapshot_views(res@)[0] == snapshot_of(self.local()),
            lists_peers_except(snapshot_views(res@), self.peers(), excluded@),
    {
        let entries = peer_map_entries(&self.peers);
        let ghost pm = peer_entries(self.peers);
        let target = excluded.to_string();
        let mut out: Vec<NodeSnapshot> = Vec::new();
        out.push(node_snapshot(&self.local_node));
        let ghost mut idx: Seq<int> = Seq::empty();
        let mut i: usize = 0;
        while i < entries.len()
            invariant
                i <= entries@.len(),
                target@ == excluded@,
                pm == peer_entries(self.peers),
                self.wf(),
                out@.len() == idx.len() + 1,
                out@[0]@ == snapshot_of(self.local()),
                forall|j: int|
                    0 <= j < entries@.len() ==> pm.contains_key(#[trigger] entries@[j].0@)
                        && same_node(entries@[j].1, pm[entries@[j].0@]),
                forall|a: int, b: int|
                    0 <= a < entries@.len() && 0 <= b < entries@.len() && a != b ==> #[trigger] entries@[a].0@
                        != #[trigger] entries@[b].0@,
                forall|j: int|
                    0 <= j < idx.len() ==> 0 <= #[trigger] idx[j] < i && out@[j + 1]@ == snapshot_of(
                        entries@[idx[j]].1@,
                    ) && entries@[idx[j]].0@ != excluded@,
                forall|a: int, b: int| 0 <= a < b < idx.len() ==> idx[a] < idx[b],
                forall|q: int|
                    0 <= q < i && (#[trigger] entries@[q]).0@ != excluded@ ==> exists|j: int|
                        0 <= j < idx.len() && idx[j] == q,
            decreases entries@.len() - i,
        {
            let ghost old_idx = idx;
            if entries[i].1.name != target {
                proof {
                    assert(pm.contains_key(entries@[i as int].0@));
                }
                out.push(node_snapshot(&entries[i].1));
                proof {
                    idx = idx.push(i as int);
                }
            }
            proof {
                assert(pm.contains_key(entries@[i as int].0@));
                assert forall|q: int| 0 <= q < i + 1 && (#[trigger] entries@[q]).0@ != excluded@ implies exists|j: int|
                    0 <= j < idx.len() && idx[j] == q by {
                    if q == i {
                        assert(idx[idx.len() - 1] == q);
                    } else {
                        let j = choose|j: int| 0 <= j < old_idx.len() && old_idx[j] == q;
                        assert(idx[j] == old_idx[j]);
                    }
                }
            }
            i = i + 1;
        }
        proof {
            let v = snapshot_views(out@);
            let peers = self.peers();
            assert(peers.dom() == pm.dom());
            assert forall|a: int| 1 <= a < v.len() implies peers.contains_key(#[trigger] v[a].name)
                && v[a].name != excluded@ && v[a] == snapshot_of(peers[v[a].name]) by {
                let j = a - 1;
                assert(out@[j + 1]@ == snapshot_of(entries@[idx[j]].1@));
                let k = entries@[idx[j]].0@;
                assert(pm.contains_key(k));
            }
            assert forall|a: int, b: int|
                1 <= a < v.len() && 1 <= b < v.len() && a != b implies #[trigger] v[a].name
                != #[trigger] v[b].name by {
                assert(out@[(a - 1) + 1]@ == snapshot_of(entries@[idx[a - 1]].1@));
                assert(out@[(b - 1) + 1]@ == snapshot_of(entries@[idx[b - 1]].1@));
                assert(pm.contains_key(entries@[idx[a - 1]].0@));
                assert(pm.contains_key(entries@[idx[b - 1]].0@));
                assert(idx[a - 1] != idx[b - 1]);
            }
            assert forall|k: Seq<char>| #[trigger] peers.contains_key(k) && k != excluded@ implies exists|a: int|
                1 <= a < v.len() && v[a].name == k by {
                assert(pm.contains_key(k));
                let q = choose|q: int| 0 <= q < entries@.len() && entries@[q].0@ == k;
                assert(entries@[q].0@ != excluded@);
                let j = choose|j: int| 0 <= j < idx.len() && idx[j] == q;
                assert(out@[j + 1]@ == snapshot_of(entries@[q].1@));
                assert(pm[k]@.name == k);
                assert(v[j + 1] == out@[j + 1]@);
            }
        }
        out
    }

    /// The dynamic assignments as a list of pairs.
    fn assignment_list(&self) -> (res: Vec<GroupAssignment>)
        requires
            self.wf(),
        ensures
            lists_mapping(assignment_pairs(res@), self.assignments()),
    {
        let res = copy_assignments(&self.group_assignments);
        proof {
            let v = self.group_assignments@;
            let pairs = assignment_pairs(res@);
            lemma_assignments_all(v);
            assert forall|i: int| 0 <= i < pairs.len() implies self.assignments().contains_key(
                #[trigger] pairs[i].0,
            ) && self.assignments()[pairs[i].0] == pairs[i].1 by {
                assert(pairs[i] == assignment_pairs(v)[i]);
            }
            assert forall|g: Seq<char>| #[trigger] self.assignments().contains_key(g) implies exists|i: int|
                0 <= i < pairs.len() && pairs[i].0 == g by {
                let i = choose|i: int| 0 <= i < v.len() && (#[trigger] v[i]).group@ == g;
                assert(pairs[i] == assignment_pairs(v)[i]);
            }
            assert forall|i: int, j: int|
                0 <= i < pairs.len() && 0 <= j < pairs.len() && i != j implies #[trigger] pairs[i].0
                != #[trigger] pairs[j].0 by {
                assert(pairs[i] == assignment_pairs(v)[i]);
                assert(pairs[j] == assignment_pairs(v)[j]);
            }
        }
        res
    }

    /// Syncs of every stored retained message whose topic matches `pattern`.
    fn matching_syncs(&self, pattern: &str) -> (res: Vec<ClusterMessage>)
        requires
            self.wf(),
        ensures
            syncs_matching(res@, self.retained(), pattern@, self.local().name),
    {
        let msgs = self.retained_store.get_matching(pattern);
        let mut out: Vec<ClusterMessage> = Vec::new();
        let mut i: usize = 0;
        while i < msgs.len()
            invariant
                i <= msgs@.len(),
                out@.len() == i,
                forall|j: int|
                    0 <= j < i ==> (#[trigger] out@[j])@ == (MessageView::RetainedSync {
                        topic: msgs@[j].topic@,
                        payload: msgs@[j].payload@,
                        source_node: self.local_node.name@,
                    }),
            decreases msgs@.len() - i,
        {
            out.push(
                ClusterMessage::RetainedSync {
                    topic: msgs[i].topic.clone(),
                    payload: crate::cluster::retained::clone_bytes(&msgs[i].payload),
                    source_node: self.local_node.name.clone(),
                },
            );
            i = i + 1;
        }
        proof {
            assert forall|a: int, b: int|
                0 <= a < out@.len() && 0 <= b < out@.len() && a != b implies sync_topic(
                #[trigger] out@[a]@,
            ) != sync_topic(#[trigger] out@[b]@) by {
                assert(msgs@[a].topic@ != msgs@[b].topic@);
            }
            assert forall|t: Seq<char>| #[trigger]
                self.retained().contains_key(t) && crate::cluster::retained::spec_topic_matches(pattern@, t)
                implies exists|a: int| 0 <= a < out@.len() && sync_topic(out@[a]@) == t by {
                let a = choose|a: int| 0 <= a < msgs@.len() && msgs@[a].topic@ == t;
                assert(sync_topic(out@[a]@) == t);
            }
        }
        out
    }

    /// React to a message received from a peer at `sender_addr`.
    ///
    /// `addresses_valid` says whether the socket addresses the message
    /// carries (those of a join request, the MQTT address of a heartbeat)
    /// parse. A join request with an invalid address is rejected with no
    /// effect; a heartbeat from an unknown node is ignored unless its
    /// address is valid. Returns the replies to send back on the same
    /// connection.
    pub fn handle_message(&mut self, msg: ClusterMessage, sender_addr: String, addresses_valid: bool) -> (res: Result<Vec<ClusterMessage>, PeerError>)
        requires
            old(self).wf(),
        ensures
            final(self).wf(),
            final(self).local() == old(self).local(),
            final(self).enabled() == old(self).enabled(),
            final(self).static_peer_addrs() == old(self).static_peer_addrs(),
            exists|now: Instant|
                #[trigger] message_outcome(
                    *old(self),
                    *final(self),
                    msg,
                    sender_addr@,
                    addresses_valid,
                    res,
                    now,
                ),
    {
        let now = crate::cluster::node::instant_now();
        self.handle_message_at(msg, sender_addr, addresses_valid, now)
    }

    /// React to a peer message received at `now` (see `handle_message`); a
    /// heartbeat from a known peer restarts its liveness timer at `now`.
    pub fn handle_message_at(
        &mut self,
        msg: ClusterMessage,
        sender_addr: String,
        addresses_valid: bool,
        now: Instant,
    ) -> (res: Result<Vec<ClusterMessage>, PeerError>)
        requires
            old(self).wf(),
        ensures
            final(self).wf(),
            final(self).local() == old(self).local(),
            final(self).enabled() == old(self).enabled(),
            final(self).static_peer_addrs() == old(self).static_peer_addrs(),
            message_outcome(*old(self), *final(self), msg, sender_addr@, addresses_valid, res, now),
    {
        match msg {
            ClusterMessage::JoinRequest { node_name, mqtt_addr, cluster_addr, assigned_groups } => {
                if !addresses_valid {
                    return Err(PeerError::InvalidAddress);
                }
                let peer = NodeInfo::remote_with_groups(
                    node_name.clone(),
                    cluster_addr,
                    mqtt_addr,
                    assigned_groups,
                );
                let ghost pv = peer@;
                peer_map_insert(&mut self.peers, node_name.clone(), peer);
                proof {
                    assert(self.peers() =~= old(self).peers().insert(node_name@, pv));
                }
                let nodes = self.snapshots_except(node_name.as_str());
                let group_assignments = self.assignment_list();
                let mut replies: Vec<ClusterMessage> = Vec::new();
                replies.push(ClusterMessage::JoinResponse { accepted: true, nodes, group_assignments });
                Ok(replies)
            },
            ClusterMessage::Heartbeat { node_name, mqtt_addr, assigned_groups, connection_count } => {
                match peer_map_get(&self.peers, node_name.as_str()) {
                    Some(mut peer) => {
                        let ghost before = peer@;
                        peer.update_heartbeat_at(now, assigned_groups, connection_count);
                        let ghost pv = peer@;
                        peer_map_insert(&mut self.peers, node_name, peer);
                        proof {
                            assert(self.peers() =~= old(self).peers().insert(node_name@, pv));
                        }
                    },
                    None => {
                        if addresses_valid {
                            let peer = NodeInfo::remote(node_name.clone(), sender_addr, mqtt_addr);
                            let ghost pv = peer@;
                            peer_map_insert(&mut self.peers, node_name, peer);
                            proof {
                                assert(self.peers() =~= old(self).peers().insert(node_name@, pv));
                            }
                        }
                    },
                }
                Ok(Vec::new())
            },
            ClusterMessage::GroupAssigned { group, node_name } => {
                set_assignment(&mut self.group_assignments, group, node_name);
                Ok(Vec::new())
            },
            ClusterMessage::GroupUnassigned { group, previous_node } => {
                proof {
                    lemma_assignments_all(self.group_assignments@);
                }
                match find_group(&self.group_assignments, group.as_str()) {
                    Some(i) => {
                        if self.group_assignments[i].node_name == previous_node {
                            remove_assignment(&mut self.group_assignments, group.as_str());
                        }
                    },
                    None => {
                        assert(!self.assignments().contains_key(group@)) by {
                            if self.assignments().contains_key(group@) {
                                let j = choose|j: int|
                                    0 <= j < self.group_assignments@.len()
                                        && (#[trigger] self.group_assignments@[j]).group@ == group@;
                            }
                        }
                    },
                }
                Ok(Vec::new())
            },
            ClusterMessage::RetainedSync { topic, payload, source_node } => {
                let timestamp = crate::cluster::retained::unix_now_secs();
                let m = RetainedMessage { topic, payload, timestamp, source_node };
                let ghost mv = m;
                self.retained_store.store_synced(m);
                assert(self.retained() == crate::cluster::retained::spec_after_sync(old(self).retained(), mv));
                Ok(Vec::new())
            },
            ClusterMessage::RetainedRequest { topic_pattern } => {
                Ok(self.matching_syncs(topic_pattern.as_str()))
            },
            ClusterMessage::JoinResponse { .. } => {
                Ok(Vec::new())
            },
        }
    }

    /// Record the outcome of a join request: when accepted, every announced
    /// node whose addresses are valid (`addresses_valid[i]` for the `i`-th)
    /// becomes a healthy peer.
    pub fn apply_join_response(&mut self, response: ClusterMessage, addresses_valid: &Vec<bool>) -> (res: JoinOutcome)
        requires
            old(self).wf(),
        ensures
            final(self).wf(),
            final(self).local() == old(self).local(),
            final(self).assignments() == old(self).assignments(),
            final(self).retained() == old(self).retained(),
            final(self).enabled() == old(self).enabled(),
            final(self).static_peer_addrs() == old(self).static_peer_addrs(),
            match response@ {
                MessageView::JoinResponse { accepted, nodes, .. } => if accepted {
                    &&& res == JoinOutcome::Joined(nodes.len() as usize)
                    &&& final(self).peers() == peers_after_join(old(self).peers(), nodes, addresses_valid@)
                } else {
                    &&& res == JoinOutcome::Rejected
                    &&& final(self).peers() == old(self).peers()
                },
                _ => {
                    &&& res == JoinOutcome::NotAResponse
                    &&& final(self).peers() == old(self).peers()
                },
            },
    {
        match response {
            ClusterMessage::JoinResponse { accepted, nodes, .. } => {
                if !accepted {
                    return JoinOutcome::Rejected;
                }
                let ghost nv = snapshot_views(nodes@);
                let mut i: usize = 0;
                assert(nv.take(0) =~= Seq::<SnapshotView>::empty());
                while i < nodes.len()
                    invariant
                        i <= nodes@.len(),
                        nv == snapshot_views(nodes@),
                        self.wf(),
                        self.local_node == old(self).local_node,
                        self.group_assignments == old(self).group_assignments,
                        self.retained_store == old(self).retained_store,
                        self.enabled == old(self).enabled,
                        self.config == old(self).config,
                        self.peers() == peers_after_join(old(self).peers(), nv.take(i as int), addresses_valid@),
                    decreases nodes@.len() - i,
                {
                    if i < addresses_valid.len() && addresses_valid[i] {
                        let n = &nodes[i];
                        let peer = NodeInfo::remote_with_groups(
                            n.name.clone(),
                            n.cluster_addr.clone(),
                            n.mqtt_addr.clone(),
                            copy_strings(&n.assigned_groups),
                        );
                        let ghost pv = peer@;
                        peer_map_insert(&mut self.peers, n.name.clone(), peer);
                        proof {
                            assert(pv == announced_peer(nv[i as int]));
                            assert(self.peers() =~= peers_after_join(old(self).peers(), nv.take(i as int), addresses_valid@).insert(nv[i as int].name, pv));
                        }
                    }
                    proof {
                        assert(nv.take(i + 1).drop_last() =~= nv.take(i as int));
                        assert(nv.take(i + 1)[i as int] == nv[i as int]);
                    }
                    i = i + 1;
                }
                assert(nv.take(nodes@.len() as int) =~= nv);
                JoinOutcome::Joined(nodes.len())
            },
            _ => JoinOutcome::NotAResponse,
        }
    }

    /// The same message to every peer.
    fn to_all_peers(&self, msg: &ClusterMessage) -> (res: Vec<Outgoing>)
        requires
            self.wf(),
        ensures
            sends_to_all_peers(res@, self.peers(), msg@),
    {
        let entries = peer_map_entries(&self.peers);
        let ghost pm = peer_entries(self.peers);
        let mut out: Vec<Outgoing> = Vec::new();
        let mut i: usize = 0;
        while i < entries.len()
            invariant
                i <= entries@.len(),
                pm == peer_entries(self.peers),
                out@.len() == i,
                entries@.len() == pm.len(),
                forall|j: int|
                    0 <= j < entries@.len() ==> pm.contains_key(#[trigger] entries@[j].0@)
                        && same_node(entries@[j].1, pm[entries@[j].0@]),
                forall|j: int|
                    0 <= j < i ==> (#[trigger] out@[j]).peer_name@ == entries@[j].0@
                        && out@[j].addr@ == entries@[j].1.cluster_addr@ && out@[j].message@
                        == msg@,
            decreases entries@.len() - i,
        {
            let (ref name, ref node) = entries[i];
            out.push(
                Outgoing {
                    peer_name: name.clone(),
                    addr: node.cluster_addr.clone(),
                    message: msg.duplicate(),
                },
            );
            i = i + 1;
        }
        proof {
            let peers = self.peers();
            assert(peers.dom() == pm.dom());
            assert forall|j: int| 0 <= j < out@.len() implies peers.contains_key(
                #[trigger] out@[j].peer_name@,
            ) && out@[j].addr@ == peers[out@[j].peer_name@].cluster_addr && out@[j].message@
                == msg@ by {
                assert(pm.contains_key(entries@[j].0@));
            }
            assert forall|a: int, b: int|
                0 <= a < out@.len() && 0 <= b < out@.len() && a != b implies #[trigger] out@[a].peer_name@
                != #[trigger] out@[b].peer_name@ by {
                assert(entries@[a].0@ != entries@[b].0@);
            }
            assert forall|k: Seq<char>| #[trigger] peers.contains_key(k) implies exists|j: int|
                0 <= j < out@.len() && out@[j].peer_name@ == k by {
                assert(pm.contains_key(k));
                let j = choose|j: int| 0 <= j < entries@.len() && entries@[j].0@ == k;
                assert(out@[j].peer_name@ == k);
            }
        }
        out
    }
}

/// Repeating a reassignment changes nothing: once `group` is assigned to
/// `target`, reassigning it to `target` again reports no change.
pub proof fn lemma_reassign_repeated(
    before: ClusterCoordinator,
    after: ClusterCoordinator,
    group: Seq<char>,
    target: Seq<char>,
)
    requires
        after.assignments() == before.assignments().insert(group, target),
    ensures
        !after.reassign_changes(group, target),
{
}

/// Unassigning a group that was newly reassigned restores the assignments
/// from before the reassignment, and reports that an assignment was removed.
pub proof fn lemma_unassign_undoes_reassign(
    before: Map<Seq<char>, Seq<char>>,
    group: Seq<char>,
    target: Seq<char>,
)
    requires
        !before.contains_key(group),
    ensures
        before.insert(group, target).contains_key(group),
        before.insert(group, target).remove(group) == before,
{
    assert(before.insert(group, target).remove(group) =~= before);
}

/// A health check removes a peer exactly when its elapsed seconds exceed the
/// down threshold; a kept peer is suspect when they exceed the suspect
/// threshold and otherwise keeps its state (peers stored are never down).
pub proof fn lemma_health_check_outcome(
    peers: Map<Seq<char>, NodeView>,
    elapsed: Seq<(String, u64)>,
    suspect_after: u64,
    down_after: u64,
    k: Seq<char>,
    x: u64,
)
    requires
        peers.contains_key(k),
        peers[k].state != NodeState::Down,
        elapsed_for(elapsed, k) == Some(x),
    ensures
        x > down_after ==> !peers_after_health(peers, elapsed, suspect_after, down_after).contains_key(k)
            && down_after_health(peers, elapsed, suspect_after, down_after).contains(k),
        x <= down_after ==> peers_after_health(peers, elapsed, suspect_after, down_after).contains_key(k)
            && !down_after_health(peers, elapsed, suspect_after, down_after).contains(k)
            && peers_after_health(peers, elapsed, suspect_after, down_after)[k] == (NodeView {
            state: if x > suspect_after {
                NodeState::Suspect
            } else {
                peers[k].state
            },
            ..peers[k]
        }),
{
}

/// The nodes a group can be reassigned to are exactly the local node and the
/// known peers: reassigning to one of them changes something unless the
/// group is already assigned to it; reassigning to any other name changes
/// nothing.
pub proof fn lemma_reassign_targets(c: ClusterCoordinator, group: Seq<char>, target: Seq<char>)
    ensures
        (target == c.local().name || c.peers().contains_key(target)) && !(c.assignments().contains_key(
            group,
        ) && c.assignments()[group] == target) ==> c.reassign_changes(group, target),
        !(target == c.local().name || c.peers().contains_key(target)) ==> !c.reassign_changes(
            group,
            target,
        ),
        c.assignments().contains_key(group) && c.assignments()[group] == target
            ==> !c.reassign_changes(group, target),
{
}

} // verus!
