use otterwatch_mqtt::cluster::coordinator::{
    ClusterCoordinator, JoinOutcome, PeerError, DOWN_AFTER_SECS, SUSPECT_AFTER_SECS,
};
use otterwatch_mqtt::cluster::node::{NodeInfo, NodeInfoResponse, NodeState};
use otterwatch_mqtt::cluster::protocol::{ClusterMessage, GroupAssignment, NodeSnapshot};
use otterwatch_mqtt::config::ClusterConfig;

fn enabled_config(groups: &[&str]) -> ClusterConfig {
    let mut c = ClusterConfig::default();
    c.enabled = true;
    c.bind_addr = "10.0.0.1:7000".to_string();
    c.assigned_groups = groups.iter().map(|g| g.to_string()).collect();
    c.discovery.static_peers = vec!["10.0.0.2:7000".to_string()];
    c
}

fn join(name: &str, groups: &[&str]) -> ClusterMessage {
    ClusterMessage::JoinRequest {
        node_name: name.to_string(),
        mqtt_addr: format!("{}:1883", name),
        cluster_addr: format!("{}:7000", name),
        assigned_groups: groups.iter().map(|g| g.to_string()).collect(),
    }
}

fn coordinator_with_peer() -> ClusterCoordinator {
    let mut c = ClusterCoordinator::new(enabled_config(&["web"]), "node-a".to_string(), "10.0.0.1:1883".to_string());
    let r = c.handle_message(join("node-b", &["db"]), "10.0.0.2:40000".to_string(), true);
    assert!(r.is_ok());
    c
}

#[test]
fn new_coordinator() {
    let c = ClusterCoordinator::new(enabled_config(&["web"]), "node-a".to_string(), "10.0.0.1:1883".to_string());
    assert!(c.is_enabled());
    assert_eq!(c.local_node_name(), "node-a");
    assert_eq!(c.available_nodes(), vec!["node-a".to_string()]);
    assert_eq!(c.static_peers(), vec!["10.0.0.2:7000".to_string()]);
    assert_eq!(c.retained_count(), 0);
    let nodes = c.get_nodes();
    assert_eq!(nodes.len(), 1);
    assert_eq!(nodes[0].cluster_addr, "10.0.0.1:7000");
    assert!(nodes[0].is_local);
}

#[test]
fn disabled_coordinator() {
    let c = ClusterCoordinator::disabled();
    assert!(!c.is_enabled());
    assert_eq!(c.local_node_name(), "standalone");
    // The standalone node handles every group.
    let n = c.find_node_for_group("anything").unwrap();
    assert_eq!(n.name, "standalone");
}

#[test]
fn join_request_adds_peer_and_replies() {
    let mut c = ClusterCoordinator::new(enabled_config(&["web"]), "node-a".to_string(), "10.0.0.1:1883".to_string());
    let replies = c.handle_message(join("node-b", &["db"]), "x".to_string(), true).unwrap();
    assert_eq!(replies.len(), 1);
    match &replies[0] {
        ClusterMessage::JoinResponse { accepted, nodes, group_assignments } => {
            assert!(*accepted);
            assert_eq!(nodes[0].name, "node-a");
            assert!(nodes.iter().all(|n| n.name != "node-b"));
            assert!(group_assignments.is_empty());
        }
        _ => panic!("expected a join response"),
    }
    let mut names = c.available_nodes();
    names.sort();
    assert_eq!(names, vec!["node-a".to_string(), "node-b".to_string()]);
}

#[test]
fn join_request_with_bad_address_is_refused() {
    let mut c = ClusterCoordinator::new(enabled_config(&[]), "node-a".to_string(), "m".to_string());
    let r = c.handle_message(join("node-b", &[]), "x".to_string(), false);
    assert!(matches!(r, Err(PeerError::InvalidAddress)));
    assert_eq!(c.available_nodes().len(), 1);
}

#[test]
fn heartbeat_updates_known_peer() {
    let mut c = coordinator_with_peer();
    let hb = ClusterMessage::Heartbeat {
        node_name: "node-b".to_string(),
        mqtt_addr: "ignored".to_string(),
        assigned_groups: vec!["cache".to_string()],
        connection_count: 42,
    };
    let r = c.handle_message(hb, "x".to_string(), true).unwrap();
    assert!(r.is_empty());
    let nodes = c.get_nodes();
    let b = nodes.iter().find(|n| n.name == "node-b").unwrap();
    assert_eq!(b.connection_count, 42);
    assert_eq!(b.assigned_groups, vec!["cache".to_string()]);
    assert_eq!(b.state, NodeState::Healthy);
    assert_eq!(b.mqtt_addr, "node-b:1883");
}

#[test]
fn heartbeat_from_unknown_node_adds_joining_peer() {
    let mut c = ClusterCoordinator::new(enabled_config(&[]), "node-a".to_string(), "m".to_string());
    let hb = ClusterMessage::Heartbeat {
        node_name: "node-c".to_string(),
        mqtt_addr: "10.0.0.3:1883".to_string(),
        assigned_groups: vec!["x".to_string()],
        connection_count: 7,
    };
    c.handle_message(hb, "10.0.0.3:7000".to_string(), true).unwrap();
    let nodes = c.get_nodes();
    let n = nodes.iter().find(|n| n.name == "node-c").unwrap();
    assert_eq!(n.state, NodeState::Joining);
    assert_eq!(n.cluster_addr, "10.0.0.3:7000");
    assert_eq!(n.connection_count, 0);
    assert!(n.assigned_groups.is_empty());
}

#[test]
fn reassign_and_unassign() {
    let mut c = coordinator_with_peer();
    // Unknown node: nothing changes.
    let (changed, out) = c.reassign_group("g".to_string(), "nobody".to_string());
    assert!(!changed);
    assert!(out.is_empty());

    let (changed, out) = c.reassign_group("g".to_string(), "node-b".to_string());
    assert!(changed);
    assert_eq!(out.len(), 1);
    assert_eq!(out[0].peer_name, "node-b");
    assert_eq!(out[0].addr, "node-b:7000");
    match &out[0].message {
        ClusterMessage::GroupAssigned { group, node_name } => {
            assert_eq!(group, "g");
            assert_eq!(node_name, "node-b");
        }
        _ => panic!("expected GroupAssigned"),
    }

    // Repeating it changes nothing.
    let (changed, out) = c.reassign_group("g".to_string(), "node-b".to_string());
    assert!(!changed);
    assert!(out.is_empty());

    let found = c.find_node_for_group("g").unwrap();
    assert_eq!(found.name, "node-b");

    let (removed, out) = c.unassign_group("g".to_string());
    assert!(removed);
    match &out[0].message {
        ClusterMessage::GroupUnassigned { group, previous_node } => {
            assert_eq!(group, "g");
            assert_eq!(previous_node, "node-b");
        }
        _ => panic!("expected GroupUnassigned"),
    }
    let (removed, out) = c.unassign_group("g".to_string());
    assert!(!removed);
    assert!(out.is_empty());
}

#[test]
fn find_node_prefers_local() {
    let c = coordinator_with_peer();
    assert_eq!(c.find_node_for_group("web").unwrap().name, "node-a");
    assert_eq!(c.find_node_for_group("db").unwrap().name, "node-b");
    assert!(c.find_node_for_group("unknown").is_none());
}

#[test]
fn group_assignments_dynamic_overrides_static() {
    let mut c = coordinator_with_peer();
    let mut a: Vec<(String, String)> = c
        .get_group_assignments()
        .into_iter()
        .map(|g: GroupAssignment| (g.group, g.node_name))
        .collect();
    a.sort();
    assert_eq!(
        a,
        vec![
            ("db".to_string(), "node-b".to_string()),
            ("web".to_string(), "node-a".to_string())
        ]
    );
    c.reassign_group("web".to_string(), "node-b".to_string());
    let a = c.get_group_assignments();
    let web = a.iter().find(|g| g.group == "web").unwrap();
    assert_eq!(web.node_name, "node-b");
}

#[test]
fn group_messages_from_peers() {
    let mut c = coordinator_with_peer();
    c.handle_message(
        ClusterMessage::GroupAssigned { group: "g".to_string(), node_name: "node-b".to_string() },
        "x".to_string(),
        true,
    )
    .unwrap();
    assert_eq!(c.get_group_assignments().iter().find(|g| g.group == "g").unwrap().node_name, "node-b");
    // A different previous node leaves the assignment alone.
    c.handle_message(
        ClusterMessage::GroupUnassigned { group: "g".to_string(), previous_node: "node-z".to_string() },
        "x".to_string(),
        true,
    )
    .unwrap();
    assert!(c.get_group_assignments().iter().any(|g| g.group == "g"));
    c.handle_message(
        ClusterMessage::GroupUnassigned { group: "g".to_string(), previous_node: "node-b".to_string() },
        "x".to_string(),
        true,
    )
    .unwrap();
    assert!(!c.get_group_assignments().iter().any(|g| g.group == "g"));
}

#[test]
fn retained_store_and_sync() {
    let mut c = coordinator_with_peer();
    let out = c.store_retained("t/1".to_string(), b"v".to_vec());
    assert_eq!(out.len(), 1);
    match &out[0].message {
        ClusterMessage::RetainedSync { topic, payload, source_node } => {
            assert_eq!(topic, "t/1");
            assert_eq!(payload, b"v");
            assert_eq!(source_node, "node-a");
        }
        _ => panic!("expected RetainedSync"),
    }
    assert_eq!(c.retained_count(), 1);
    assert_eq!(c.retained_store().get("t/1").unwrap().source_node, "node-a");

    c.handle_message(
        ClusterMessage::RetainedSync {
            topic: "t/2".to_string(),
            payload: b"w".to_vec(),
            source_node: "node-b".to_string(),
        },
        "x".to_string(),
        true,
    )
    .unwrap();
    assert_eq!(c.retained_count(), 2);
    assert_eq!(c.get_retained_messages().len(), 2);

    let replies = c
        .handle_message(
            ClusterMessage::RetainedRequest { topic_pattern: "t/+".to_string() },
            "x".to_string(),
            true,
        )
        .unwrap();
    assert_eq!(replies.len(), 2);
    for r in &replies {
        match r {
            ClusterMessage::RetainedSync { source_node, .. } => assert_eq!(source_node, "node-a"),
            _ => panic!("expected RetainedSync"),
        }
    }
}

#[test]
fn request_and_heartbeat_fan_out() {
    let c = coordinator_with_peer();
    let out = c.request_retained("a/#");
    assert_eq!(out.len(), 1);
    assert!(matches!(&out[0].message, ClusterMessage::RetainedRequest { topic_pattern } if topic_pattern == "a/#"));
    let hb = c.heartbeat_messages();
    assert_eq!(hb.len(), 1);
    match &hb[0].message {
        ClusterMessage::Heartbeat { node_name, assigned_groups, .. } => {
            assert_eq!(node_name, "node-a");
            assert_eq!(assigned_groups, &vec!["web".to_string()]);
        }
        _ => panic!("expected Heartbeat"),
    }
    match c.join_request() {
        ClusterMessage::JoinRequest { node_name, cluster_addr, .. } => {
            assert_eq!(node_name, "node-a");
            assert_eq!(cluster_addr, "10.0.0.1:7000");
        }
        _ => panic!("expected JoinRequest"),
    }
}

#[test]
fn connection_count_update() {
    let mut c = ClusterCoordinator::disabled();
    c.update_connection_count(12);
    assert_eq!(c.get_nodes()[0].connection_count, 12);
    match c.heartbeat() {
        ClusterMessage::Heartbeat { connection_count, .. } => assert_eq!(connection_count, 12),
        _ => panic!("expected Heartbeat"),
    }
}

#[test]
fn join_response_adds_new_nodes() {
    let mut c = ClusterCoordinator::new(enabled_config(&[]), "node-a".to_string(), "m".to_string());
    let resp = ClusterMessage::JoinResponse {
        accepted: true,
        nodes: vec![
            NodeSnapshot {
                name: "node-b".to_string(),
                mqtt_addr: "10.0.0.2:1883".to_string(),
                cluster_addr: "10.0.0.2:7000".to_string(),
                assigned_groups: vec!["db".to_string()],
            },
            NodeSnapshot {
                name: "node-c".to_string(),
                mqtt_addr: "not an address".to_string(),
                cluster_addr: "10.0.0.3:7000".to_string(),
                assigned_groups: vec![],
            },
        ],
        group_assignments: vec![],
    };
    // The second node's addresses do not parse, so it is skipped.
    let outcome = c.apply_join_response(resp, &vec![true, false]);
    assert_eq!(outcome, JoinOutcome::Joined(2));
    let mut names = c.available_nodes();
    names.sort();
    assert_eq!(names, vec!["node-a".to_string(), "node-b".to_string()]);
    let nodes = c.get_nodes();
    let b = nodes.iter().find(|n| n.name == "node-b").unwrap();
    assert_eq!(b.state, NodeState::Healthy);
    assert_eq!(b.assigned_groups, vec!["db".to_string()]);

    let refused = ClusterMessage::JoinResponse { accepted: false, nodes: vec![], group_assignments: vec![] };
    assert_eq!(c.apply_join_response(refused, &vec![]), JoinOutcome::Rejected);
    let other = ClusterMessage::RetainedRequest { topic_pattern: "#".to_string() };
    assert_eq!(c.apply_join_response(other, &vec![]), JoinOutcome::NotAResponse);
}

#[test]
fn health_check_marks_nodes() {
    let mut n = NodeInfo::remote("p".to_string(), "c".to_string(), "m".to_string());
    assert_eq!(n.state, NodeState::Joining);
    n.apply_health_check(5, 10, 30);
    assert_eq!(n.state, NodeState::Joining);
    n.apply_health_check(11, 10, 30);
    assert_eq!(n.state, NodeState::Suspect);
    n.apply_health_check(31, 10, 30);
    assert_eq!(n.state, NodeState::Down);
    n.update_heartbeat(vec!["a".to_string(), "a".to_string()], 3);
    assert_eq!(n.state, NodeState::Healthy);
    assert_eq!(n.assigned_groups, vec!["a".to_string()]);
    assert_eq!(n.connection_count, 3);

    // Fresh peers are not yet suspect.
    let mut c = coordinator_with_peer();
    let down = c.check_peer_health(10, 30);
    assert!(down.is_empty());
}

#[test]
fn node_groups_and_reports() {
    let all = NodeInfo::local("l".to_string(), "c".to_string(), "m".to_string(), vec![]);
    assert!(all.handles_group("anything"));
    let some = NodeInfo::remote_with_groups(
        "r".to_string(),
        "c".to_string(),
        "m".to_string(),
        vec!["a".to_string(), "b".to_string(), "a".to_string()],
    );
    assert!(some.handles_group("a"));
    assert!(!some.handles_group("c"));
    assert_eq!(some.assigned_groups.len(), 2);
    let r = NodeInfoResponse::from_node(&some);
    assert_eq!(r.name, "r");
    assert_eq!(r.assigned_groups, some.assigned_groups);
    assert!(!r.is_local);
    let d = some.duplicate();
    assert_eq!(d.name, "r");
    assert_eq!(d.assigned_groups, some.assigned_groups);
    assert_eq!(NodeState::default(), NodeState::Joining);
}

#[test]
fn health_check_never_heals() {
    let mut n = NodeInfo::remote("p".to_string(), "c".to_string(), "m".to_string());
    n.apply_health_check(100, 10, 30);
    assert_eq!(n.state, NodeState::Down);
    // A later check with a short elapsed time leaves it down.
    n.apply_health_check(0, 10, 30);
    assert_eq!(n.state, NodeState::Down);
    let mut s = NodeInfo::remote("q".to_string(), "c".to_string(), "m".to_string());
    s.apply_health_check(20, 10, 30);
    assert_eq!(s.state, NodeState::Suspect);
    s.apply_health_check(1, 10, 30);
    assert_eq!(s.state, NodeState::Suspect);
}

fn three_node_cluster() -> ClusterCoordinator {
    let mut c = coordinator_with_peer();
    c.handle_message(join("node-c", &["cache"]), "x".to_string(), true).unwrap();
    c.handle_message(join("node-d", &["queue"]), "x".to_string(), true).unwrap();
    c.reassign_group("g".to_string(), "node-c".to_string());
    c.reassign_group("h".to_string(), "node-b".to_string());
    c
}

#[test]
fn apply_peer_health_by_elapsed_seconds() {
    let mut c = three_node_cluster();
    let elapsed = vec![
        ("node-b".to_string(), 15),
        ("node-c".to_string(), 31),
        ("node-d".to_string(), 10),
    ];
    let down = c.apply_peer_health(&elapsed, SUSPECT_AFTER_SECS, DOWN_AFTER_SECS);
    assert_eq!(down, vec!["node-c".to_string()]);
    let nodes = c.get_nodes();
    assert!(nodes.iter().all(|n| n.name != "node-c"));
    assert_eq!(nodes.iter().find(|n| n.name == "node-b").unwrap().state, NodeState::Suspect);
    assert_eq!(nodes.iter().find(|n| n.name == "node-d").unwrap().state, NodeState::Healthy);
    // The assignment to the removed node is dropped; the other stays.
    let a = c.get_group_assignments();
    assert!(!a.iter().any(|g| g.group == "g"));
    assert_eq!(a.iter().find(|g| g.group == "h").unwrap().node_name, "node-b");
}

#[test]
fn apply_peer_health_unlisted_peer_keeps_state() {
    let mut c = three_node_cluster();
    let down = c.apply_peer_health(&vec![("node-b".to_string(), 100)], 10, 30);
    assert_eq!(down, vec!["node-b".to_string()]);
    let mut names = c.available_nodes();
    names.sort();
    assert_eq!(names, vec!["node-a".to_string(), "node-c".to_string(), "node-d".to_string()]);
    assert!(c.get_nodes().iter().all(|n| n.state == NodeState::Healthy));
    // The first entry naming a peer counts.
    let down = c.apply_peer_health(
        &vec![("node-c".to_string(), 1), ("node-c".to_string(), 100)],
        10,
        30,
    );
    assert!(down.is_empty());
}

#[test]
fn health_thresholds() {
    assert_eq!(SUSPECT_AFTER_SECS, 10);
    assert_eq!(DOWN_AFTER_SECS, 30);
    let mut c = three_node_cluster();
    assert!(c.check_peer_health(SUSPECT_AFTER_SECS, DOWN_AFTER_SECS).is_empty());
    assert_eq!(c.available_nodes().len(), 4);
}

#[test]
fn heartbeat_restarts_liveness_timer() {
    let mut n = NodeInfo::remote("p".to_string(), "c".to_string(), "m".to_string());
    let now = std::time::Instant::now() + std::time::Duration::from_secs(5);
    n.update_heartbeat_at(now, vec!["g".to_string()], 9);
    assert_eq!(n.last_heartbeat, now);
    assert_eq!(n.state, NodeState::Healthy);
    assert_eq!(n.connection_count, 9);

    let mut c = coordinator_with_peer();
    let later = std::time::Instant::now() + std::time::Duration::from_secs(60);
    let hb = ClusterMessage::Heartbeat {
        node_name: "node-b".to_string(),
        mqtt_addr: "ignored".to_string(),
        assigned_groups: vec![],
        connection_count: 1,
    };
    assert!(c.handle_message_at(hb, "x".to_string(), true, later).unwrap().is_empty());
    // A heartbeat stamped in the future leaves the peer healthy at the next check.
    assert!(c.check_peer_health(SUSPECT_AFTER_SECS, DOWN_AFTER_SECS).is_empty());
    let b = c.get_nodes().into_iter().find(|n| n.name == "node-b").unwrap();
    assert_eq!(b.state, NodeState::Healthy);
    assert_eq!(b.connection_count, 1);
}
