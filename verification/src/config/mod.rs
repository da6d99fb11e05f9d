//! Broker configuration: schema, defaults and validation.

pub mod loader;
pub mod schema;

pub use loader::{
    cluster_has_discovery, config_source, load_config, load_test_config, validate_config,
    ConfigError, ConfigSource,
};
pub use schema::{
    ApiConfig, ApiKeySource, AuthConfig, BridgeConfig, ClusterConfig, Config, DiscoveryConfig,
    MetricsConfig, MqttConfig, NodeConfig,
};
