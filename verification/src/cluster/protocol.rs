//! Cluster communication protocol.
//!
//! Messages travel as JSON bodies, each preceded by its length as four
//! big-endian bytes. The JSON text itself is produced outside this library;
//! the framing is done here.

use crate::cluster::node::{copy_strings, text_set};
use crate::cluster::retained::clone_bytes;
use vstd::prelude::*;

verus! {

/// Messages exchanged between cluster nodes.
#[derive(Debug, Clone)]
pub enum ClusterMessage {
    /// Heartbeat with node status.
    Heartbeat {
        node_name: String,
        mqtt_addr: String,
        assigned_groups: Vec<String>,
        connection_count: u64,
    },
    /// Request to join the cluster.
    JoinRequest {
        node_name: String,
        mqtt_addr: String,
        cluster_addr: String,
        assigned_groups: Vec<String>,
    },
    /// Response to a join request with the cluster state.
    JoinResponse {
        accepted: bool,
        nodes: Vec<NodeSnapshot>,
        group_assignments: Vec<GroupAssignment>,
    },
    /// Announce a group assignment change.
    GroupAssigned { group: String, node_name: String },
    /// Announce a group unassignment.
    GroupUnassigned { group: String, previous_node: String },
    /// Sync a retained message.
    RetainedSync { topic: String, payload: Vec<u8>, source_node: String },
    /// Request all retained messages matching a topic pattern.
    RetainedRequest { topic_pattern: String },
}

/// Snapshot of a node for join responses.
#[derive(Debug, Clone)]
pub struct NodeSnapshot {
    pub name: String,
    pub mqtt_addr: String,
    pub cluster_addr: String,
    pub assigned_groups: Vec<String>,
}

/// Group to node assignment.
#[derive(Debug, Clone)]
pub struct GroupAssignment {
    pub group: String,
    pub node_name: String,
}

/// Abstract view of a node snapshot.
pub struct SnapshotView {
    pub name: Seq<char>,
    pub mqtt_addr: Seq<char>,
    pub cluster_addr: Seq<char>,
    pub groups: Set<Seq<char>>,
}

impl View for NodeSnapshot {
    type V = SnapshotView;

    open spec fn view(&self) -> SnapshotView {
        SnapshotView {
            name: self.name@,
            mqtt_addr: self.mqtt_addr@,
            cluster_addr: self.cluster_addr@,
            groups: text_set(self.assigned_groups@),
        }
    }
}

/// Abstract view of a cluster message: texts, byte strings and group sets.
pub enum MessageView {
    Heartbeat {
        node_name: Seq<char>,
        mqtt_addr: Seq<char>,
        groups: Set<Seq<char>>,
        connection_count: u64,
    },
    JoinRequest {
        node_name: Seq<char>,
        mqtt_addr: Seq<char>,
        cluster_addr: Seq<char>,
        groups: Set<Seq<char>>,
    },
    JoinResponse {
        accepted: bool,
        nodes: Seq<SnapshotView>,
        assignments: Seq<(Seq<char>, Seq<char>)>,
    },
    GroupAssigned { group: Seq<char>, node_name: Seq<char> },
    GroupUnassigned { group: Seq<char>, previous_node: Seq<char> },
    RetainedSync { topic: Seq<char>, payload: Seq<u8>, source_node: Seq<char> },
    RetainedRequest { topic_pattern: Seq<char> },
}

/// The (group, node) texts of a list of assignments.
pub open spec fn assignment_pairs(v: Seq<GroupAssignment>) -> Seq<(Seq<char>, Seq<char>)> {
    v.map_values(|a: GroupAssignment| (a.group@, a.node_name@))
}

/// The views of a list of snapshots.
pub open spec fn snapshot_views(v: Seq<NodeSnapshot>) -> Seq<SnapshotView> {
    v.map_values(|n: NodeSnapshot| n@)
}

impl View for ClusterMessage {
    type V = MessageView;

    open spec fn view(&self) -> MessageView {
        match self {
            ClusterMessage::Heartbeat { node_name, mqtt_addr, assigned_groups, connection_count } =>
                MessageView::Heartbeat {
                node_name: node_name@,
                mqtt_addr: mqtt_addr@,
                groups: text_set(assigned_groups@),
                connection_count: *connection_count,
            },
            ClusterMessage::JoinRequest { node_name, mqtt_addr, cluster_addr, assigned_groups } =>
                MessageView::JoinRequest {
                node_name: node_name@,
                mqtt_addr: mqtt_addr@,
                cluster_addr: cluster_addr@,
                groups: text_set(assigned_groups@),
            },
            ClusterMessage::JoinResponse { accepted, nodes, group_assignments } =>
                MessageView::JoinResponse {
                accepted: *accepted,
                nodes: snapshot_views(nodes@),
                assignments: assignment_pairs(group_assignments@),
            },
            ClusterMessage::GroupAssigned { group, node_name } => MessageView::GroupAssigned {
                group: group@,
                node_name: node_name@,
            },
            ClusterMessage::GroupUnassigned { group, previous_node } =>
                MessageView::GroupUnassigned { group: group@, previous_node: previous_node@ },
            ClusterMessage::RetainedSync { topic, payload, source_node } =>
                MessageView::RetainedSync {
                topic: topic@,
                payload: payload@,
                source_node: source_node@,
            },
            ClusterMessage::RetainedRequest { topic_pattern } => MessageView::RetainedRequest {
                topic_pattern: topic_pattern@,
            },
        }
    }
}

impl NodeSnapshot {
    /// A copy of this snapshot.
    pub fn duplicate(&self) -> (res: NodeSnapshot)
        ensures
            res@ == self@,
    {
        NodeSnapshot {
            name: self.name.clone(),
            mqtt_addr: self.mqtt_addr.clone(),
            cluster_addr: self.cluster_addr.clone(),
            assigned_groups: copy_strings(&self.assigned_groups),
        }
    }
}

impl GroupAssignment {
    /// A copy of this assignment.
    pub fn duplicate(&self) -> (res: GroupAssignment)
        ensures
            res.group@ == self.group@,
            res.node_name@ == self.node_name@,
    {
        GroupAssignment { group: self.group.clone(), node_name: self.node_name.clone() }
    }
}

/// Copy a list of assignments.
pub fn copy_assignments(v: &Vec<GroupAssignment>) -> (res: Vec<GroupAssignment>)
    ensures
        assignment_pairs(res@) == assignment_pairs(v@),
        forall|i: int| 0 <= i < v@.len() ==> (#[trigger] res@[i]).group@ == v@[i].group@ && res@[i].node_name@ == v@[i].node_name@,
        res@.len() == v@.len(),
{
    let mut out: Vec<GroupAssignment> = Vec::new();
    let mut i: usize = 0;
    while i < v.len()
        invariant
            i <= v@.len(),
            out@.len() == i,
            forall|j: int| 0 <= j < i ==> (#[trigger] out@[j]).group@ == v@[j].group@ && out@[j].node_name@ == v@[j].node_name@,
        decreases v@.len() - i,
    {
        out.push(v[i].duplicate());
        i = i + 1;
    }
    assert(assignment_pairs(out@) =~= assignment_pairs(v@));
    out
}

/// Copy a list of snapshots.
fn copy_snapshots(v: &Vec<NodeSnapshot>) -> (res: Vec<NodeSnapshot>)
    ensures
        snapshot_views(res@) == snapshot_views(v@),
{
    let mut out: Vec<NodeSnapshot> = Vec::new();
    let mut i: usize = 0;
    while i < v.len()
        invariant
            i <= v@.len(),
            out@.len() == i,
            forall|j: int| 0 <= j < i ==> (#[trigger] out@[j])@ == v@[j]@,
        decreases v@.len() - i,
    {
        out.push(v[i].duplicate());
        i = i + 1;
    }
    assert(snapshot_views(out@) =~= snapshot_views(v@));
    out
}

impl ClusterMessage {
    /// A copy of this message.
    pub fn duplicate(&self) -> (res: ClusterMessage)
        ensures
            res@ == self@,
    {
        match self {
            ClusterMessage::Heartbeat { node_name, mqtt_addr, assigned_groups, connection_count } =>
                ClusterMessage::Heartbeat {
                node_name: node_name.clone(),
                mqtt_addr: mqtt_addr.clone(),
                assigned_groups: copy_strings(assigned_groups),
                connection_count: *connection_count,
            },
            ClusterMessage::JoinRequest { node_name, mqtt_addr, cluster_addr, assigned_groups } =>
                ClusterMessage::JoinRequest {
                node_name: node_name.clone(),
                mqtt_addr: mqtt_addr.clone(),
                cluster_addr: cluster_addr.clone(),
                assigned_groups: copy_strings(assigned_groups),
            },
            ClusterMessage::JoinResponse { accepted, nodes, group_assignments } =>
                ClusterMessage::JoinResponse {
                accepted: *accepted,
                nodes: copy_snapshots(nodes),
                group_assignments: copy_assignments(group_assignments),
            },
            ClusterMessage::GroupAssigned { group, node_name } => ClusterMessage::GroupAssigned {
                group: group.clone(),
                node_name: node_name.clone(),
            },
            ClusterMessage::GroupUnassigned { group, previous_node } =>
                ClusterMessage::GroupUnassigned {
                group: group.clone(),
                previous_node: previous_node.clone(),
            },
            ClusterMessage::RetainedSync { topic, payload, source_node } =>
                ClusterMessage::RetainedSync {
                topic: topic.clone(),
                payload: clone_bytes(payload),
                source_node: source_node.clone(),
            },
            ClusterMessage::RetainedRequest { topic_pattern } => ClusterMessage::RetainedRequest {
                topic_pattern: topic_pattern.clone(),
            },
        }
    }
}

/// The four big-endian bytes of a length.
pub open spec fn be_u32_bytes(n: u32) -> Seq<u8> {
    seq![
        (n >> 24u32) as u8,
        ((n >> 16u32) & 0xffu32) as u8,
        ((n >> 8u32) & 0xffu32) as u8,
        (n & 0xffu32) as u8,
    ]
}

/// The length encoded by four big-endian bytes.
pub open spec fn be_u32_value(b0: u8, b1: u8, b2: u8, b3: u8) -> u32 {
    ((b0 as u32) << 24u32) | ((b1 as u32) << 16u32) | ((b2 as u32) << 8u32) | (b3 as u32)
}

/// A length survives encoding into four bytes and decoding back.
pub proof fn lemma_be_u32_roundtrip(n: u32)
    ensures
        be_u32_value(be_u32_bytes(n)[0], be_u32_bytes(n)[1], be_u32_bytes(n)[2], be_u32_bytes(n)[3])
            == n,
{
    assert((((n >> 24u32) as u8 as u32) << 24u32) | ((((n >> 16u32) & 0xffu32) as u8 as u32)
        << 16u32) | ((((n >> 8u32) & 0xffu32) as u8 as u32) << 8u32) | ((n & 0xffu32) as u8 as u32)
        == n) by (bit_vector);
}

/// A frame: the body's length in four big-endian bytes, then the body.
pub open spec fn spec_frame(body: Seq<u8>) -> Seq<u8> {
    be_u32_bytes(body.len() as u32) + body
}

/// Frame a message body: prefix it with its length as four big-endian bytes.
pub fn frame_body(body: &[u8]) -> (res: Vec<u8>)
    requires
        body@.len() <= u32::MAX,
    ensures
        res@ == spec_frame(body@),
{
    let len = body.len() as u32;
    let mut out: Vec<u8> = Vec::new();
    out.push((len >> 24u32) as u8);
    out.push(((len >> 16u32) & 0xffu32) as u8);
    out.push(((len >> 8u32) & 0xffu32) as u8);
    out.push((len & 0xffu32) as u8);
    let mut i: usize = 0;
    while i < body.len()
        invariant
            i <= body@.len(),
            len == body@.len() as u32,
            out@ == be_u32_bytes(len) + body@.take(i as int),
        decreases body@.len() - i,
    {
        out.push(body[i]);
        i = i + 1;
        assert(body@.take(i as int) == body@.take(i - 1).push(body@[i - 1]));
    }
    assert(body@.take(body@.len() as int) == body@);
    out
}

/// Decode the length announced by a four-byte frame header.
pub fn frame_length(header: [u8; 4]) -> (res: u32)
    ensures
        res == be_u32_value(header@[0], header@[1], header@[2], header@[3]),
{
    ((header[0] as u32) << 24u32) | ((header[1] as u32) << 16u32) | ((header[2] as u32) << 8u32)
        | (header[3] as u32)
}

/// The body of a buffer holding exactly one frame; `None` when the header
/// does not announce the number of bytes that follow it.
pub open spec fn spec_unframe(bytes: Seq<u8>) -> Option<Seq<u8>> {
    if bytes.len() >= 4 && be_u32_value(bytes[0], bytes[1], bytes[2], bytes[3]) as int
        == bytes.len() - 4 {
        Some(bytes.skip(4))
    } else {
        None
    }
}

/// Take the body out of a buffer holding exactly one frame.
pub fn unframe(bytes: &[u8]) -> (res: Option<Vec<u8>>)
    ensures
        match res {
            Some(b) => spec_unframe(bytes@) == Some(b@),
            None => spec_unframe(bytes@) is None,
        },
{
    if bytes.len() < 4 {
        return None;
    }
    let len = frame_length([bytes[0], bytes[1], bytes[2], bytes[3]]);
    if (len as u64) != ((bytes.len() - 4) as u64) {
        return None;
    }
    let mut out: Vec<u8> = Vec::new();
    let mut i: usize = 4;
    while i < bytes.len()
        invariant
            4 <= i <= bytes@.len(),
            out@ == bytes@.subrange(4, i as int),
        decreases bytes@.len() - i,
    {
        out.push(bytes[i]);
        i = i + 1;
        assert(bytes@.subrange(4, i as int) == bytes@.subrange(4, i - 1).push(bytes@[i - 1]));
    }
    assert(out@ == bytes@.skip(4));
    Some(out)
}

/// Unframing a frame gives back the body it was made from.
pub proof fn lemma_unframe_frame(body: Seq<u8>)
    requires
        body.len() <= u32::MAX,
    ensures
        spec_unframe(spec_frame(body)) == Some(body),
{
    let f = spec_frame(body);
    lemma_be_u32_roundtrip(body.len() as u32);
    assert(f[0] == be_u32_bytes(body.len() as u32)[0]);
    assert(f[1] == be_u32_bytes(body.len() as u32)[1]);
    assert(f[2] == be_u32_bytes(body.len() as u32)[2]);
    assert(f[3] == be_u32_bytes(body.len() as u32)[3]);
    assert(f.skip(4) =~= body);
}

} // verus!
