use otterwatch_mqtt::api::{health_response, rebalance, RebalanceRequest, STATUS_BAD_REQUEST, STATUS_OK};
use otterwatch_mqtt::cluster::coordinator::ClusterCoordinator;
use otterwatch_mqtt::cluster::protocol::ClusterMessage;
use otterwatch_mqtt::config::ClusterConfig;

#[test]
fn health_is_ok() {
    let h = health_response("node-1".to_string(), 12);
    assert_eq!(h.status, "ok");
    assert_eq!(h.node, "node-1");
    assert_eq!(h.uptime_secs, 12);
}

#[test]
fn rebalance_refused_when_cluster_off() {
    let mut c = ClusterCoordinator::disabled();
    let (status, resp, out) = rebalance(
        &mut c,
        RebalanceRequest { group: "g".to_string(), node: "standalone".to_string() },
    );
    assert_eq!(status, STATUS_BAD_REQUEST);
    assert!(!resp.success);
    assert_eq!(resp.message, "Cluster mode is not enabled");
    assert_eq!(resp.group, "g");
    assert_eq!(resp.node, "standalone");
    assert!(out.is_empty());
}

#[test]
fn rebalance_reports_change_and_no_change() {
    let mut config = ClusterConfig::default();
    config.enabled = true;
    let mut c = ClusterCoordinator::new(config, "node-a".to_string(), "m".to_string());
    c.handle_message(
        ClusterMessage::JoinRequest {
            node_name: "node-b".to_string(),
            mqtt_addr: "b:1883".to_string(),
            cluster_addr: "b:7000".to_string(),
            assigned_groups: vec![],
        },
        "b:40000".to_string(),
        true,
    )
    .unwrap();

    let (status, resp, out) =
        rebalance(&mut c, RebalanceRequest { group: "g".to_string(), node: "node-b".to_string() });
    assert_eq!(status, STATUS_OK);
    assert!(resp.success);
    assert_eq!(resp.message, "Group 'g' reassigned to node 'node-b'");
    assert_eq!(out.len(), 1);

    let (status, resp, out) =
        rebalance(&mut c, RebalanceRequest { group: "g".to_string(), node: "node-b".to_string() });
    assert_eq!(status, STATUS_OK);
    assert!(!resp.success);
    assert_eq!(
        resp.message,
        "No change - group 'g' is already assigned to 'node-b' or node not found"
    );
    assert!(out.is_empty());

    let (_, resp, _) =
        rebalance(&mut c, RebalanceRequest { group: "g".to_string(), node: "ghost".to_string() });
    assert!(!resp.success);
}
