//! Management API: response bodies and the decisions behind the endpoints.
//! Serving HTTP happens outside this library.

use crate::cluster::coordinator::{sends_to_all_peers, ClusterCoordinator, Outgoing};
use crate::cluster::protocol::MessageView;
use vstd::prelude::*;

verus! {

broadcast use vstd::string::group_string_axioms;

/// Health check response.
pub struct HealthResponse {
    pub status: String,
    pub node: String,
    pub uptime_secs: u64,
}

/// The health report of a running node.
pub fn health_response(node: String, uptime_secs: u64) -> (res: HealthResponse)
    ensures
        res.status@ == "ok"@,
        res.node@ == node@,
        res.uptime_secs == uptime_secs,
{
    HealthResponse { status: "ok".to_string(), node, uptime_secs }
}

/// Server statistics.
pub struct StatsResponse {
    pub node: String,
    pub uptime_secs: u64,
    pub connections_active: i64,
    pub subscriptions_active: i64,
    pub messages_received: u64,
    pub messages_failed: u64,
    pub messages_sent: u64,
}

/// Connection summary.
pub struct ConnectionsResponse {
    pub count: i64,
    pub subscriptions: i64,
}

/// Request to store a retained message.
pub struct StoreRetainedRequest {
    pub topic: String,
    pub payload: String,
}

/// Request to reassign a group to another node.
pub struct RebalanceRequest {
    /// Group to reassign.
    pub group: String,
    /// Target node name.
    pub node: String,
}

/// Response to a rebalance request.
pub struct RebalanceResponse {
    pub success: bool,
    pub message: String,
    pub group: String,
    pub node: String,
}

/// HTTP status: request handled.
pub const STATUS_OK: u16 = 200;

/// HTTP status: request not applicable.
pub const STATUS_BAD_REQUEST: u16 = 400;

/// The message of a successful reassignment.
pub open spec fn reassigned_message(group: Seq<char>, node: Seq<char>) -> Seq<char> {
    "Group '"@ + group + "' reassigned to node '"@ + node + "'"@
}

/// The message when nothing changed.
pub open spec fn unchanged_message(group: Seq<char>, node: Seq<char>) -> Seq<char> {
    "No change - group '"@ + group + "' is already assigned to '"@ + node
        + "' or node not found"@
}

/// Handle a rebalance request: refused when clustering is off; otherwise the
/// group is reassigned (see `ClusterCoordinator::reassign_group`) and the
/// response says whether anything changed. Also returns the announcements
/// to send to the peers.
pub fn rebalance(cluster: &mut ClusterCoordinator, req: RebalanceRequest) -> (res: (
    u16,
    RebalanceResponse,
    Vec<Outgoing>,
))
    requires
        old(cluster).wf(),
    ensures
        final(cluster).wf(),
        res.1.group@ == req.group@,
        res.1.node@ == req.node@,
        !old(cluster).enabled() ==> {
            &&& res.0 == STATUS_BAD_REQUEST
            &&& !res.1.success
            &&& res.1.message@ == "Cluster mode is not enabled"@
            &&& res.2@.len() == 0
            &&& final(cluster).assignments() == old(cluster).assignments()
        },
        old(cluster).enabled() ==> {
            let changed = old(cluster).reassign_changes(req.group@, req.node@);
            &&& res.0 == STATUS_OK
            &&& res.1.success == changed
            &&& changed ==> res.1.message@ == reassigned_message(req.group@, req.node@)
            &&& !changed ==> res.1.message@ == unchanged_message(req.group@, req.node@)
            &&& changed ==> final(cluster).assignments() == old(cluster).assignments().insert(
                req.group@,
                req.node@,
            ) && sends_to_all_peers(
                res.2@,
                old(cluster).peers(),
                MessageView::GroupAssigned { group: req.group@, node_name: req.node@ },
            )
            &&& !changed ==> final(cluster).assignments() == old(cluster).assignments()
                && res.2@.len() == 0
        },
        final(cluster).local() == old(cluster).local(),
        final(cluster).peers() == old(cluster).peers(),
        final(cluster).retained() == old(cluster).retained(),
        final(cluster).enabled() == old(cluster).enabled(),
{
    if !cluster.is_enabled() {
        return (
            STATUS_BAD_REQUEST,
            RebalanceResponse {
                success: false,
                message: "Cluster mode is not enabled".to_string(),
                group: req.group,
                node: req.node,
            },
            Vec::new(),
        );
    }
    let (changed, out) = cluster.reassign_group(req.group.clone(), req.node.clone());
    let message = if changed {
        let mut m = "Group '".to_string();
        m.append(req.group.as_str());
        m.append("' reassigned to node '");
        m.append(req.node.as_str());
        m.append("'");
        m
    } else {
        let mut m = "No change - group '".to_string();
        m.append(req.group.as_str());
        m.append("' is already assigned to '");
        m.append(req.node.as_str());
        m.append("' or node not found");
        m
    };
    (STATUS_OK, RebalanceResponse { success: changed, message, group: req.group, node: req.node }, out)
}

} // verus!
