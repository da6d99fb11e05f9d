use otterwatch_mqtt::broker::settings::connection_timeout_ms;
use otterwatch_mqtt::broker::broker_settings;
use otterwatch_mqtt::config::{load_test_config, BridgeConfig};

#[test]
fn keepalive_timeout_formula() {
    // 30 s keepalive: 30 * 1500 + 5000 = 50000 ms.
    assert_eq!(connection_timeout_ms(30), 50000);
    assert_eq!(connection_timeout_ms(0), 5000);
    // Capped at 65 s.
    assert_eq!(connection_timeout_ms(40), 65000);
    assert_eq!(connection_timeout_ms(1000), 65000);
}

#[test]
fn settings_from_config() {
    let config = load_test_config();
    let s = broker_settings(&config);
    assert_eq!(s.router.max_connections, 10000);
    assert_eq!(s.router.max_outgoing_packet_count, 50000);
    assert_eq!(s.router.max_segment_size, 262144);
    assert_eq!(s.router.max_segment_count, 10);
    assert_eq!(s.server.name, "test-node");
    assert_eq!(s.server.listen, "0.0.0.0:1883");
    assert_eq!(s.server.next_connection_delay_ms, 1);
    assert_eq!(s.server.connections.connection_timeout_ms, 50000);
    assert_eq!(s.server.connections.max_inflight_count, 100);
    assert!(!s.server.connections.dynamic_filters);
    assert!(s.bridge.is_none());
    assert_eq!(s.ignored_bridges, 0);
    assert_eq!(s.meters_push_interval, 1);
    assert_eq!(s.alerts_push_interval, 60);
}

#[test]
fn first_bridge_is_used() {
    let mut config = load_test_config();
    config.bridge.push(BridgeConfig {
        name: "b1".to_string(),
        addr: "192.168.1.100:1884".to_string(),
        topic: "otterwatch/#".to_string(),
        qos: 1,
        reconnection_delay_secs: 5,
        ping_delay_secs: 10,
    });
    config.bridge.push(BridgeConfig {
        name: "b2".to_string(),
        addr: "x:1".to_string(),
        topic: "#".to_string(),
        qos: 0,
        reconnection_delay_secs: 1,
        ping_delay_secs: 1,
    });
    let s = broker_settings(&config);
    let b = s.bridge.unwrap();
    assert_eq!(b.name, "b1");
    assert_eq!(b.addr, "192.168.1.100:1884");
    assert_eq!(b.sub_path, "otterwatch/#");
    assert_eq!(b.qos, 1);
    assert_eq!(b.reconnection_delay, 5);
    assert_eq!(b.ping_delay, 10);
    assert_eq!(b.connections.connection_timeout_ms, 20000);
    assert_eq!(s.ignored_bridges, 1);
}
