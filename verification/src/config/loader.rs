//! Configuration loading decisions and validation.
//!
//! Reading the file and the environment, and turning TOML into a `Config`,
//! happen outside this library; what is decided here is whether a file is
//! used, and whether the resulting configuration is acceptable.

use crate::config::schema::{
    ApiConfig, ApiKeySource, AuthConfig, ClusterConfig, Config, MetricsConfig, MqttConfig,
    NodeConfig,
};
use vstd::prelude::*;

verus! {

broadcast use vstd::string::group_string_axioms;

/// Why a configuration could not be loaded.
#[derive(Debug)]
pub enum ConfigError {
    /// `mqtt.max_connections` is zero.
    MaxConnectionsZero,
    /// `mqtt.router_buffer_size` is zero.
    RouterBufferZero,
    /// `mqtt.max_qos` is above 2.
    InvalidMaxQos,
    /// Authentication is required but no key is configured.
    NoApiKeys,
    /// An explicitly named configuration file does not exist.
    FileNotFound(String),
    /// The configuration sources could not be combined.
    Build(String),
    /// The combined configuration does not have the expected shape.
    Deserialize(String),
}

impl ConfigError {
    /// The text of a failing check, as reported to the operator.
    pub open spec fn spec_message(&self) -> Seq<char> {
        match self {
            ConfigError::MaxConnectionsZero => "mqtt.max_connections must be greater than 0"@,
            ConfigError::RouterBufferZero => "mqtt.router_buffer_size must be greater than 0"@,
            ConfigError::InvalidMaxQos => "mqtt.max_qos must be 0, 1, or 2"@,
            ConfigError::NoApiKeys => "auth.require_auth is true but no api_keys are configured"@,
            ConfigError::FileNotFound(p) => "Configuration file not found: "@ + p@,
            ConfigError::Build(_) => "Failed to build configuration"@,
            ConfigError::Deserialize(_) => "Failed to deserialize configuration"@,
        }
    }

    /// The operator-facing message of this error.
    pub fn message(&self) -> (res: String)
        ensures
            res@ == self.spec_message(),
    {
        match self {
            ConfigError::MaxConnectionsZero => "mqtt.max_connections must be greater than 0".to_string(),
            ConfigError::RouterBufferZero => "mqtt.router_buffer_size must be greater than 0".to_string(),
            ConfigError::InvalidMaxQos => "mqtt.max_qos must be 0, 1, or 2".to_string(),
            ConfigError::NoApiKeys => "auth.require_auth is true but no api_keys are configured".to_string(),
            ConfigError::FileNotFound(p) => {
                let mut m = "Configuration file not found: ".to_string();
                m.append(p.as_str());
                m
            },
            ConfigError::Build(_) => "Failed to build configuration".to_string(),
            ConfigError::Deserialize(_) => "Failed to deserialize configuration".to_string(),
        }
    }
}

/// Where the configuration values come from.
#[derive(PartialEq, Eq, Structural, Clone, Copy, Debug)]
pub enum ConfigSource {
    /// The configuration file, overlaid by the environment.
    File,
    /// Built-in defaults, overlaid by the environment.
    Defaults,
}

/// The file read when no path is given.
pub fn default_config_path() -> (res: String)
    ensures
        res@ == "settings.toml"@,
{
    "settings.toml".to_string()
}

/// Decide whether to read the configuration file at `path`.
///
/// An existing file is used; a missing file is an error only when the
/// caller named it explicitly, otherwise the defaults are used.
pub fn config_source(explicit_path: bool, path: &str, file_exists: bool) -> (res: Result<
    ConfigSource,
    ConfigError,
>)
    ensures
        file_exists ==> res == Ok::<ConfigSource, ConfigError>(ConfigSource::File),
        !file_exists && !explicit_path ==> res == Ok::<ConfigSource, ConfigError>(
            ConfigSource::Defaults,
        ),
        !file_exists && explicit_path ==> (res matches Err(ConfigError::FileNotFound(p))
            && p@ == path@),
{
    if file_exists {
        Ok(ConfigSource::File)
    } else if explicit_path {
        Err(ConfigError::FileNotFound(path.to_string()))
    } else {
        Ok(ConfigSource::Defaults)
    }
}

/// The first check a configuration fails, in the order they are made.
pub open spec fn spec_config_error(config: &Config) -> Option<ConfigError> {
    if config.mqtt.max_connections == 0 {
        Some(ConfigError::MaxConnectionsZero)
    } else if config.mqtt.router_buffer_size == 0 {
        Some(ConfigError::RouterBufferZero)
    } else if config.mqtt.max_qos > 2 {
        Some(ConfigError::InvalidMaxQos)
    } else if config.auth.require_auth && config.auth.api_keys@.len() == 0 {
        Some(ConfigError::NoApiKeys)
    } else {
        None
    }
}

/// Validate configuration values.
pub fn validate_config(config: &Config) -> (res: Result<(), ConfigError>)
    ensures
        match spec_config_error(config) {
            Some(e) => res == Err::<(), ConfigError>(e),
            None => res is Ok,
        },
{
    if config.mqtt.max_connections == 0 {
        return Err(ConfigError::MaxConnectionsZero);
    }
    if config.mqtt.router_buffer_size == 0 {
        return Err(ConfigError::RouterBufferZero);
    }
    if config.mqtt.max_qos > 2 {
        return Err(ConfigError::InvalidMaxQos);
    }
    if config.auth.require_auth && config.auth.api_keys.len() == 0 {
        return Err(ConfigError::NoApiKeys);
    }
    Ok(())
}

/// Whether an enabled cluster has any way to find its peers.
pub fn cluster_has_discovery(cluster: &ClusterConfig) -> (res: bool)
    ensures
        res == (cluster.discovery.static_peers@.len() != 0 || cluster.discovery.dns_name is Some
            || cluster.discovery.etcd_endpoints@.len() != 0),
{
    cluster.discovery.static_peers.len() != 0 || cluster.discovery.dns_name.is_some()
        || cluster.discovery.etcd_endpoints.len() != 0
}

/// Finish loading: a configuration that was read is returned only if it passes validation.
pub fn load_config(parsed: Result<Config, ConfigError>) -> (res: Result<Config, ConfigError>)
    ensures
        match parsed {
            Err(e) => res == Err::<Config, ConfigError>(e),
            Ok(c) => match spec_config_error(&c) {
                Some(e) => res == Err::<Config, ConfigError>(e),
                None => res == Ok::<Config, ConfigError>(c),
            },
        },
{
    match parsed {
        Err(e) => Err(e),
        Ok(config) => match validate_config(&config) {
            Err(e) => Err(e),
            Ok(()) => Ok(config),
        },
    }
}

/// A configuration for tests: node "test-node", one key "test-key", auth required.
pub fn load_test_config() -> (res: Config)
    ensures
        res.node.name@ == "test-node"@,
        res.node.data_dir@ == "/tmp/otterwatch-mqtt-test"@,
        res.mqtt.listen_addr@ == "0.0.0.0:1883"@,
        res.mqtt.public_addr is None,
        res.mqtt.max_connections == 10000,
        res.mqtt.router_buffer_size == 50000,
        res.mqtt.keepalive_secs == 30,
        res.mqtt.max_packet_size == 262144,
        res.mqtt.max_qos == 1,
        res.auth.api_keys@.len() == 1,
        res.auth.api_keys@[0]@ == "test-key"@,
        res.auth.require_auth,
        res.auth.api_key_source == ApiKeySource::Password,
        !res.cluster.enabled,
        res.cluster.bind_addr@ == "0.0.0.0:7000"@,
        res.cluster.assigned_groups@.len() == 0,
        res.cluster.discovery.static_peers@.len() == 0,
        res.cluster.discovery.dns_name is None,
        res.cluster.discovery.etcd_endpoints@.len() == 0,
        res.bridge@.len() == 0,
        res.metrics.enabled,
        res.metrics.listen_addr@ == "0.0.0.0:9090"@,
        res.api.listen_addr@ == "0.0.0.0:8085"@,
        res.api.dashboard_enabled,
        res.api.cors_origins@.len() == 1,
        res.api.cors_origins@[0]@ == "*"@,
        spec_config_error(&res) is None,
{
    let mut keys = Vec::new();
    keys.push("test-key".to_string());
    Config {
        node: NodeConfig {
            name: "test-node".to_string(),
            data_dir: "/tmp/otterwatch-mqtt-test".to_string(),
        },
        mqtt: MqttConfig::default(),
        auth: AuthConfig {
            api_keys: keys,
            require_auth: true,
            api_key_source: ApiKeySource::Password,
        },
        cluster: ClusterConfig::default(),
        bridge: Vec::new(),
        metrics: MetricsConfig::default(),
        api: ApiConfig::default(),
    }
}

/// Validation accepts exactly the configurations with a positive connection
/// limit, a positive router buffer, a maximum QoS of 0, 1 or 2, and at least
/// one key when authentication is required; the first failing check is
/// reported.
pub proof fn lemma_validation_accepts_exactly(config: Config)
    ensures
        (spec_config_error(&config) is None) <==> (config.mqtt.max_connections > 0
            && config.mqtt.router_buffer_size > 0 && config.mqtt.max_qos <= 2 && !(
        config.auth.require_auth && config.auth.api_keys@.len() == 0)),
        config.mqtt.max_connections == 0 ==> spec_config_error(&config) == Some(
            ConfigError::MaxConnectionsZero,
        ),
        config.mqtt.max_connections > 0 && config.mqtt.router_buffer_size == 0
            ==> spec_config_error(&config) == Some(ConfigError::RouterBufferZero),
        config.mqtt.max_connections > 0 && config.mqtt.router_buffer_size > 0 ==> (
        spec_config_error(&config) == Some(ConfigError::InvalidMaxQos) <==> config.mqtt.max_qos
            > 2),
        config.mqtt.max_connections > 0 && config.mqtt.router_buffer_size > 0
            && config.mqtt.max_qos <= 2 ==> (spec_config_error(&config) == Some(
            ConfigError::NoApiKeys,
        ) <==> config.auth.require_auth && config.auth.api_keys@.len() == 0),
{
}

} // verus!
