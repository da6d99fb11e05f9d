use otterwatch_mqtt::config::schema::{
    default_api_listen, default_bridge_ping_delay, default_bridge_qos,
    default_bridge_reconnect_delay, default_bridge_topic, default_cluster_bind,
    default_cors_origins, default_data_dir, default_keepalive, default_max_connections,
    default_max_packet_size, default_max_qos, default_metrics_listen, default_mqtt_listen,
    default_node_name, default_require_auth, default_router_buffer, default_true,
    node_name_for_host,
};
use otterwatch_mqtt::config::{
    cluster_has_discovery, config_source, load_config, load_test_config, validate_config,
    ApiConfig, ApiKeySource, AuthConfig, ClusterConfig, Config, ConfigError, ConfigSource,
    DiscoveryConfig, MetricsConfig, MqttConfig, NodeConfig,
};

/// The configuration a TOML file with only these sections gives: defaults
/// everywhere else.
fn config_with(name: &str, api_keys: Vec<String>, require_auth: bool) -> Config {
    Config {
        node: NodeConfig { name: name.to_string(), data_dir: default_data_dir() },
        mqtt: MqttConfig::default(),
        auth: AuthConfig { api_keys, require_auth, api_key_source: ApiKeySource::default() },
        cluster: ClusterConfig::default(),
        bridge: Vec::new(),
        metrics: MetricsConfig::default(),
        api: ApiConfig::default(),
    }
}

#[test]
fn test_default_config() {
    let config = config_with(
        "test-node",
        vec!["key1".to_string(), "key2".to_string()],
        default_require_auth(),
    );

    assert_eq!(config.node.name, "test-node");
    assert_eq!(config.mqtt.max_connections, 10000);
    assert_eq!(config.auth.api_keys.len(), 2);
    assert!(config.auth.require_auth);
}

#[test]
fn test_validation_no_api_keys() {
    let result = load_config(Ok(config_with("test", vec![], true)));
    assert!(result.is_err());
    assert!(result
        .unwrap_err()
        .message()
        .contains("no api_keys are configured"));
}

#[test]
fn test_load_from_file() {
    let mut config = config_with("test-broker", vec!["key1".to_string(), "key2".to_string()], true);
    config.node.data_dir = "/tmp/test".to_string();
    config.mqtt.listen_addr = "127.0.0.1:1883".to_string();
    config.mqtt.max_connections = 5000;

    let config = load_config(Ok(config)).unwrap();
    assert_eq!(config.node.name, "test-broker");
    assert_eq!(config.mqtt.listen_addr, "127.0.0.1:1883");
    assert_eq!(config.mqtt.max_connections, 5000);
    assert_eq!(config.auth.api_keys.len(), 2);
}

#[test]
fn defaults_have_documented_values() {
    assert_eq!(default_data_dir(), "./data");
    assert_eq!(default_mqtt_listen(), "0.0.0.0:1883");
    assert_eq!(default_max_connections(), 10000);
    assert_eq!(default_router_buffer(), 50000);
    assert_eq!(default_keepalive(), 30);
    assert_eq!(default_max_packet_size(), 262144);
    assert_eq!(default_max_qos(), 1);
    assert!(default_require_auth());
    assert_eq!(default_cluster_bind(), "0.0.0.0:7000");
    assert!(default_true());
    assert_eq!(default_metrics_listen(), "0.0.0.0:9090");
    assert_eq!(default_api_listen(), "0.0.0.0:8085");
    assert_eq!(default_cors_origins(), vec!["*".to_string()]);
    assert_eq!(default_bridge_topic(), "otterwatch/#");
    assert_eq!(default_bridge_qos(), 1);
    assert_eq!(default_bridge_reconnect_delay(), 5);
    assert_eq!(default_bridge_ping_delay(), 30);
}

#[test]
fn default_structs() {
    let m = MqttConfig::default();
    assert_eq!(m.listen_addr, "0.0.0.0:1883");
    assert!(m.public_addr.is_none());
    assert_eq!(m.router_buffer_size, 50000);
    assert_eq!(m.keepalive_secs, 30);
    let a = AuthConfig::default();
    assert!(a.api_keys.is_empty());
    assert!(a.require_auth);
    assert!(matches!(a.api_key_source, ApiKeySource::Password));
    let c = ClusterConfig::default();
    assert!(!c.enabled);
    assert_eq!(c.bind_addr, "0.0.0.0:7000");
    assert!(c.assigned_groups.is_empty());
    let d = DiscoveryConfig::default();
    assert!(d.static_peers.is_empty() && d.dns_name.is_none() && d.etcd_endpoints.is_empty());
    let me = MetricsConfig::default();
    assert!(me.enabled);
    assert_eq!(me.listen_addr, "0.0.0.0:9090");
    let api = ApiConfig::default();
    assert_eq!(api.listen_addr, "0.0.0.0:8085");
    assert!(api.dashboard_enabled);
    assert_eq!(api.cors_origins, vec!["*".to_string()]);
}

#[test]
fn node_name_from_host() {
    assert_eq!(node_name_for_host(Some("box".to_string())), "otterwatch-mqtt-box");
    assert_eq!(node_name_for_host(None), "otterwatch-mqtt-unknown");
    assert!(default_node_name().starts_with("otterwatch-mqtt-"));
}

#[test]
fn validation_errors_in_order() {
    let mut c = config_with("n", vec!["k".to_string()], true);
    assert!(validate_config(&c).is_ok());

    c.mqtt.max_qos = 3;
    assert!(matches!(validate_config(&c), Err(ConfigError::InvalidMaxQos)));
    c.mqtt.router_buffer_size = 0;
    assert!(matches!(validate_config(&c), Err(ConfigError::RouterBufferZero)));
    c.mqtt.max_connections = 0;
    assert!(matches!(validate_config(&c), Err(ConfigError::MaxConnectionsZero)));

    let no_keys = config_with("n", vec![], true);
    assert!(matches!(validate_config(&no_keys), Err(ConfigError::NoApiKeys)));
    let no_keys_no_auth = config_with("n", vec![], false);
    assert!(validate_config(&no_keys_no_auth).is_ok());
}

#[test]
fn error_messages() {
    assert_eq!(
        ConfigError::MaxConnectionsZero.message(),
        "mqtt.max_connections must be greater than 0"
    );
    assert_eq!(
        ConfigError::RouterBufferZero.message(),
        "mqtt.router_buffer_size must be greater than 0"
    );
    assert_eq!(ConfigError::InvalidMaxQos.message(), "mqtt.max_qos must be 0, 1, or 2");
    assert_eq!(
        ConfigError::NoApiKeys.message(),
        "auth.require_auth is true but no api_keys are configured"
    );
    assert_eq!(
        ConfigError::FileNotFound("x.toml".to_string()).message(),
        "Configuration file not found: x.toml"
    );
    assert_eq!(ConfigError::Build("e".to_string()).message(), "Failed to build configuration");
    assert_eq!(
        ConfigError::Deserialize("e".to_string()).message(),
        "Failed to deserialize configuration"
    );
}

#[test]
fn load_config_passes_parse_errors_through() {
    let r = load_config(Err(ConfigError::Build("boom".to_string())));
    assert!(matches!(r, Err(ConfigError::Build(ref s)) if s == "boom"));
}

#[test]
fn config_source_decisions() {
    assert_eq!(config_source(false, "settings.toml", true).unwrap(), ConfigSource::File);
    assert_eq!(config_source(true, "a.toml", true).unwrap(), ConfigSource::File);
    assert_eq!(config_source(false, "settings.toml", false).unwrap(), ConfigSource::Defaults);
    match config_source(true, "missing.toml", false) {
        Err(ConfigError::FileNotFound(p)) => assert_eq!(p, "missing.toml"),
        _ => panic!("expected FileNotFound"),
    }
}

#[test]
fn discovery_detection() {
    let mut c = ClusterConfig::default();
    assert!(!cluster_has_discovery(&c));
    c.discovery.dns_name = Some("peers.local".to_string());
    assert!(cluster_has_discovery(&c));
    let mut c2 = ClusterConfig::default();
    c2.discovery.static_peers.push("10.0.0.1:7000".to_string());
    assert!(cluster_has_discovery(&c2));
    let mut c3 = ClusterConfig::default();
    c3.discovery.etcd_endpoints.push("http://etcd:2379".to_string());
    assert!(cluster_has_discovery(&c3));
}

#[test]
fn test_config_is_valid() {
    let c = load_test_config();
    assert_eq!(c.node.name, "test-node");
    assert_eq!(c.auth.api_keys, vec!["test-key".to_string()]);
    assert!(validate_config(&c).is_ok());
}
