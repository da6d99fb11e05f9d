//! Node information and health tracking.

use std::time::Instant;
use vstd::prelude::*;

verus! {

broadcast use vstd::string::group_string_axioms;

/// A monotonic clock reading, used as an opaque value.
#[verifier::external_type_specification]
#[verifier::external_body]
pub struct ExInstant(Instant);

/// `Instant::clone`: the same clock reading (`Instant` is `Copy`).
pub assume_specification[ <Instant as Clone>::clone ](t: &Instant) -> (res: Instant)
    ensures
        res == *t,
;

/// `Instant::now`: the current monotonic time.
#[verifier::external_body]
pub(crate) fn instant_now() -> Instant {
    Instant::now()
}

/// `Instant::elapsed`, in whole seconds.
#[verifier::external_body]
pub(crate) fn elapsed_secs(since: &Instant) -> u64 {
    since.elapsed().as_secs()
}

/// State of a cluster node.
#[derive(PartialEq, Eq, Structural, Clone, Copy, Debug)]
pub enum NodeState {
    /// Healthy and accepting connections.
    Healthy,
    /// Has not answered recent health checks.
    Suspect,
    /// Confirmed down.
    Down,
    /// Joining the cluster.
    Joining,
}

impl Default for NodeState {
    fn default() -> (res: Self)
        ensures
            res == NodeState::Joining,
    {
        NodeState::Joining
    }
}

/// The set of texts in a list of strings.
pub open spec fn text_set(v: Seq<String>) -> Set<Seq<char>> {
    Set::new(|t: Seq<char>| exists|i: int| 0 <= i < v.len() && v[i]@ == t)
}

/// No text occurs twice in a list of strings.
pub open spec fn distinct_texts(v: Seq<String>) -> bool {
    forall|i: int, j: int| 0 <= i < v.len() && 0 <= j < v.len() && i != j ==> v[i]@ != v[j]@
}

/// Whether a list of strings holds the text `s`.
pub fn contains_text(v: &Vec<String>, s: &str) -> (res: bool)
    ensures
        res == text_set(v@).contains(s@),
{
    let target = s.to_string();
    let mut i: usize = 0;
    while i < v.len()
        invariant
            i <= v.len(),
            target@ == s@,
            forall|j: int| 0 <= j < i ==> v@[j]@ != s@,
        decreases v.len() - i,
    {
        if v[i] == target {
            assert(text_set(v@).contains(s@));
            return true;
        }
        i = i + 1;
    }
    false
}

/// The strings of a list, each text once, in order of first occurrence.
pub fn distinct_strings(v: Vec<String>) -> (res: Vec<String>)
    ensures
        distinct_texts(res@),
        text_set(res@) == text_set(v@),
{
    let mut out: Vec<String> = Vec::new();
    let mut i: usize = 0;
    while i < v.len()
        invariant
            i <= v.len(),
            distinct_texts(out@),
            text_set(out@) == text_set(v@.take(i as int)),
        decreases v.len() - i,
    {
        let s = v[i].clone();
        let ghost before = out@;
        if !contains_text(&out, s.as_str()) {
            out.push(s);
        }
        proof {
            let next = v@.take(i + 1);
            assert(next == v@.take(i as int).push(v@[i as int]));
            assert forall|t: Seq<char>| text_set(out@).contains(t) implies text_set(next).contains(t) by {
                let k = choose|k: int| 0 <= k < out@.len() && out@[k]@ == t;
                if k < before.len() {
                    assert(out@[k] == before[k]);
                    assert(text_set(before).contains(t));
                    assert(text_set(v@.take(i as int)).contains(t));
                    let m = choose|m: int| 0 <= m < i && v@.take(i as int)[m]@ == t;
                    assert(next[m] == v@.take(i as int)[m]);
                } else {
                    assert(next[i as int] == v@[i as int]);
                }
            }
            assert forall|t: Seq<char>| text_set(next).contains(t) implies text_set(out@).contains(t) by {
                let m = choose|m: int| 0 <= m < next.len() && next[m]@ == t;
                if m < i {
                    assert(v@.take(i as int)[m] == next[m]);
                    assert(text_set(before).contains(t));
                    let k = choose|k: int| 0 <= k < before.len() && before[k]@ == t;
                    assert(out@[k] == before[k]);
                } else if text_set(before).contains(t) {
                    let k = choose|k: int| 0 <= k < before.len() && before[k]@ == t;
                    assert(out@[k] == before[k]);
                } else {
                    assert(out@[out@.len() - 1]@ == t);
                }
            }
            assert(text_set(out@) =~= text_set(next));
        }
        i = i + 1;
    }
    assert(v@.take(v.len() as int) == v@);
    out
}

/// Copy a list of strings.
pub fn copy_strings(v: &Vec<String>) -> (res: Vec<String>)
    ensures
        res@ == v@,
{
    let mut out: Vec<String> = Vec::new();
    let mut i: usize = 0;
    while i < v.len()
        invariant
            i <= v.len(),
            out@ == v@.take(i as int),
        decreases v.len() - i,
    {
        out.push(v[i].clone());
        i = i + 1;
    }
    assert(v@.take(v.len() as int) == v@);
    out
}

/// Abstract view of a node: its texts, state, group set and counters.
pub struct NodeView {
    pub name: Seq<char>,
    pub cluster_addr: Seq<char>,
    pub mqtt_addr: Seq<char>,
    pub state: NodeState,
    pub groups: Set<Seq<char>>,
    pub connection_count: u64,
    pub is_local: bool,
}

/// The state a node is in after a health check `elapsed` seconds after its last heartbeat.
pub open spec fn health_after(state: NodeState, elapsed: u64, suspect_after: u64, down_after: u64) -> NodeState {
    if elapsed > down_after {
        NodeState::Down
    } else if elapsed > suspect_after {
        NodeState::Suspect
    } else {
        state
    }
}

/// Information about a cluster node.
#[derive(Debug, Clone)]
pub struct NodeInfo {
    /// Unique node name.
    pub name: String,
    /// Address for cluster communication.
    pub cluster_addr: String,
    /// Address for MQTT connections.
    pub mqtt_addr: String,
    /// Current state.
    pub state: NodeState,
    /// Groups assigned to this node (each once; empty means all groups).
    pub assigned_groups: Vec<String>,
    /// Last time a heartbeat was received from this node.
    pub last_heartbeat: Instant,
    /// Number of active connections on this node.
    pub connection_count: u64,
    /// Whether this is the local node.
    pub is_local: bool,
}

impl View for NodeInfo {
    type V = NodeView;

    open spec fn view(&self) -> NodeView {
        NodeView {
            name: self.name@,
            cluster_addr: self.cluster_addr@,
            mqtt_addr: self.mqtt_addr@,
            state: self.state,
            groups: text_set(self.assigned_groups@),
            connection_count: self.connection_count,
            is_local: self.is_local,
        }
    }
}

/// Two node records hold the same values field by field, the group lists
/// compared by their sequences of texts: what a clone gives back.
pub open spec fn same_node(a: NodeInfo, b: NodeInfo) -> bool {
    &&& a.name == b.name
    &&& a.cluster_addr == b.cluster_addr
    &&& a.mqtt_addr == b.mqtt_addr
    &&& a.state == b.state
    &&& a.assigned_groups@ == b.assigned_groups@
    &&& a.last_heartbeat == b.last_heartbeat
    &&& a.connection_count == b.connection_count
    &&& a.is_local == b.is_local
}

/// Whether a node with this group set handles `group`: an empty set handles every group.
pub open spec fn spec_handles_group(groups: Set<Seq<char>>, group: Seq<char>) -> bool {
    groups.is_empty() || groups.contains(group)
}

impl NodeInfo {
    /// Well-formed: no group is listed twice.
    pub open spec fn wf(&self) -> bool {
        distinct_texts(self.assigned_groups@)
    }

    /// Create info for the local node.
    pub fn local(name: String, cluster_addr: String, mqtt_addr: String, assigned_groups: Vec<
        String,
    >) -> (res: Self)
        ensures
            res.wf(),
            res@ == (NodeView {
                name: name@,
                cluster_addr: cluster_addr@,
                mqtt_addr: mqtt_addr@,
                state: NodeState::Healthy,
                groups: text_set(assigned_groups@),
                connection_count: 0,
                is_local: true,
            }),
    {
        NodeInfo {
            name,
            cluster_addr,
            mqtt_addr,
            state: NodeState::Healthy,
            assigned_groups: distinct_strings(assigned_groups),
            last_heartbeat: instant_now(),
            connection_count: 0,
            is_local: true,
        }
    }

    /// Create info for a remote peer whose groups are not known yet.
    pub fn remote(name: String, cluster_addr: String, mqtt_addr: String) -> (res: Self)
        ensures
            res.wf(),
            res@ == (NodeView {
                name: name@,
                cluster_addr: cluster_addr@,
                mqtt_addr: mqtt_addr@,
                state: NodeState::Joining,
                groups: Set::<Seq<char>>::empty(),
                connection_count: 0,
                is_local: false,
            }),
    {
        let res = NodeInfo {
            name,
            cluster_addr,
            mqtt_addr,
            state: NodeState::Joining,
            assigned_groups: Vec::new(),
            last_heartbeat: instant_now(),
            connection_count: 0,
            is_local: false,
        };
        assert(text_set(res.assigned_groups@) =~= Set::<Seq<char>>::empty());
        res
    }

    /// Create info for a remote peer with known groups.
    pub fn remote_with_groups(
        name: String,
        cluster_addr: String,
        mqtt_addr: String,
        assigned_groups: Vec<String>,
    ) -> (res: Self)
        ensures
            res.wf(),
            res@ == (NodeView {
                name: name@,
                cluster_addr: cluster_addr@,
                mqtt_addr: mqtt_addr@,
                state: NodeState::Healthy,
                groups: text_set(assigned_groups@),
                connection_count: 0,
                is_local: false,
            }),
    {
        NodeInfo {
            name,
            cluster_addr,
            mqtt_addr,
            state: NodeState::Healthy,
            assigned_groups: distinct_strings(assigned_groups),
            last_heartbeat: instant_now(),
            connection_count: 0,
            is_local: false,
        }
    }

    /// Record a heartbeat received now (as the clock reads): new groups and
    /// connection count, state healthy.
    pub fn update_heartbeat(&mut self, groups: Vec<String>, connections: u64)
        ensures
            final(self).wf(),
            final(self)@ == (NodeView {
                state: NodeState::Healthy,
                groups: text_set(groups@),
                connection_count: connections,
                ..old(self)@
            }),
    {
        self.update_heartbeat_at(instant_now(), groups, connections);
    }

    /// Record a heartbeat received at `now`: the liveness timer restarts
    /// there, with new groups and connection count, state healthy.
    pub fn update_heartbeat_at(&mut self, now: Instant, groups: Vec<String>, connections: u64)
        ensures
            final(self).wf(),
            final(self).last_heartbeat == now,
            final(self)@ == (NodeView {
                state: NodeState::Healthy,
                groups: text_set(groups@),
                connection_count: connections,
                ..old(self)@
            }),
    {
        self.last_heartbeat = now;
        self.assigned_groups = distinct_strings(groups);
        self.connection_count = connections;
        self.state = NodeState::Healthy;
    }

    /// Apply a health check made `elapsed` seconds after the last heartbeat.
    pub fn apply_health_check(&mut self, elapsed: u64, suspect_after_secs: u64, down_after_secs: u64)
        ensures
            final(self).assigned_groups == old(self).assigned_groups,
            final(self).last_heartbeat == old(self).last_heartbeat,
            final(self)@ == (NodeView {
                state: health_after(old(self).state, elapsed, suspect_after_secs, down_after_secs),
                ..old(self)@
            }),
    {
        if elapsed > down_after_secs {
            self.state = NodeState::Down;
        } else if elapsed > suspect_after_secs {
            self.state = NodeState::Suspect;
        }
    }

    /// Mark the node suspect or down according to the time since its last heartbeat.
    pub fn check_health(&mut self, suspect_after_secs: u64, down_after_secs: u64)
        ensures
            final(self).assigned_groups == old(self).assigned_groups,
            final(self).last_heartbeat == old(self).last_heartbeat,
            exists|elapsed: u64|
                final(self)@ == (NodeView {
                    state: #[trigger] health_after(old(self).state, elapsed, suspect_after_secs, down_after_secs),
                    ..old(self)@
                }),
    {
        let elapsed = elapsed_secs(&self.last_heartbeat);
        self.apply_health_check(elapsed, suspect_after_secs, down_after_secs);
    }

    /// Whether this node handles a group: every group if none are assigned.
    pub fn handles_group(&self, group: &str) -> (res: bool)
        ensures
            res == spec_handles_group(self@.groups, group@),
    {
        if self.assigned_groups.len() == 0 {
            assert(text_set(self.assigned_groups@) =~= Set::<Seq<char>>::empty());
            true
        } else {
            assert(text_set(self.assigned_groups@).contains(self.assigned_groups@[0]@));
            contains_text(&self.assigned_groups, group)
        }
    }

    /// A copy of this node's information.
    pub fn duplicate(&self) -> (res: NodeInfo)
        ensures
            res@ == self@,
            res.assigned_groups@ == self.assigned_groups@,
            res.last_heartbeat == self.last_heartbeat,
    {
        NodeInfo {
            name: self.name.clone(),
            cluster_addr: self.cluster_addr.clone(),
            mqtt_addr: self.mqtt_addr.clone(),
            state: self.state,
            assigned_groups: copy_strings(&self.assigned_groups),
            last_heartbeat: self.last_heartbeat,
            connection_count: self.connection_count,
            is_local: self.is_local,
        }
    }
}

/// Node information as reported by the API.
pub struct NodeInfoResponse {
    pub name: String,
    pub cluster_addr: String,
    pub mqtt_addr: String,
    pub state: NodeState,
    pub assigned_groups: Vec<String>,
    pub connection_count: u64,
    pub is_local: bool,
}

impl View for NodeInfoResponse {
    type V = NodeView;

    open spec fn view(&self) -> NodeView {
        NodeView {
            name: self.name@,
            cluster_addr: self.cluster_addr@,
            mqtt_addr: self.mqtt_addr@,
            state: self.state,
            groups: text_set(self.assigned_groups@),
            connection_count: self.connection_count,
            is_local: self.is_local,
        }
    }
}

impl NodeInfoResponse {
    /// The report of a node: the same texts, state, groups and counters.
    pub fn from_node(node: &NodeInfo) -> (res: Self)
        ensures
            res@ == node@,
            res.assigned_groups@ == node.assigned_groups@,
    {
        NodeInfoResponse {
            name: node.name.clone(),
            cluster_addr: node.cluster_addr.clone(),
            mqtt_addr: node.mqtt_addr.clone(),
            state: node.state,
            assigned_groups: copy_strings(&node.assigned_groups),
            connection_count: node.connection_count,
            is_local: node.is_local,
        }
    }
}

/// A health check never makes a node healthier: the state stays as it was or
/// becomes `Suspect` or `Down`; past the down threshold it is `Down`, and only
/// a node that was healthy is healthy afterwards.
pub proof fn lemma_health_check_never_heals(
    state: NodeState,
    elapsed: u64,
    suspect_after: u64,
    down_after: u64,
)
    ensures
        health_after(state, elapsed, suspect_after, down_after) == state || health_after(
            state,
            elapsed,
            suspect_after,
            down_after,
        ) == NodeState::Suspect || health_after(state, elapsed, suspect_after, down_after)
            == NodeState::Down,
        elapsed > down_after ==> health_after(state, elapsed, suspect_after, down_after)
            == NodeState::Down,
        health_after(state, elapsed, suspect_after, down_after) == NodeState::Healthy ==> state
            == NodeState::Healthy,
{
}

} // verus!
