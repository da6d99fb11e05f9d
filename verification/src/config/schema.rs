//! Configuration schema with its default values.

use vstd::prelude::*;

verus! {

broadcast use vstd::string::group_string_axioms;

/// Root configuration structure.
#[derive(Debug, Clone)]
pub struct Config {
    /// Node identification and storage.
    pub node: NodeConfig,
    /// MQTT broker settings.
    pub mqtt: MqttConfig,
    /// Authentication settings.
    pub auth: AuthConfig,
    /// Cluster settings.
    pub cluster: ClusterConfig,
    /// Bridges to other brokers.
    pub bridge: Vec<BridgeConfig>,
    /// Prometheus metrics settings.
    pub metrics: MetricsConfig,
    /// Management API settings.
    pub api: ApiConfig,
}

/// Node identification configuration.
#[derive(Debug, Clone)]
pub struct NodeConfig {
    /// Unique node name in the cluster.
    pub name: String,
    /// Directory for persistent data.
    pub data_dir: String,
}

/// `hostname::get`, as text (lossily converted); `None` when the host name cannot be read.
#[verifier::external_body]
fn host_name() -> Option<String> {
    match hostname::get() {
        Ok(h) => Some(h.to_string_lossy().to_string()),
        Err(_) => None,
    }
}

/// The text of an optional string.
pub open spec fn opt_string_view(o: Option<String>) -> Option<Seq<char>> {
    match o {
        Some(s) => Some(s@),
        None => None,
    }
}

/// The node name derived from a host name, or from "unknown" when there is none.
pub open spec fn spec_node_name_for_host(host: Option<Seq<char>>) -> Seq<char> {
    "otterwatch-mqtt-"@ + match host {
        Some(h) => h,
        None => "unknown"@,
    }
}

/// Build the default node name from an optional host name.
pub fn node_name_for_host(host: Option<String>) -> (res: String)
    ensures
        res@ == spec_node_name_for_host(opt_string_view(host)),
{
    let mut name = "otterwatch-mqtt-".to_string();
    match host {
        Some(h) => name.append(h.as_str()),
        None => name.append("unknown"),
    }
    name
}

/// Default node name: "otterwatch-mqtt-" followed by this machine's host name.
pub fn default_node_name() -> (res: String)
    ensures
        exists|h: Option<Seq<char>>| res@ == spec_node_name_for_host(h),
{
    let host = host_name();
    let ghost h = opt_string_view(host);
    let res = node_name_for_host(host);
    assert(res@ == spec_node_name_for_host(h));
    res
}

/// Default data directory.
pub fn default_data_dir() -> (res: String)
    ensures
        res@ == "./data"@,
{
    "./data".to_string()
}

/// MQTT broker configuration.
#[derive(Debug, Clone)]
pub struct MqttConfig {
    /// Listen address for MQTT connections.
    pub listen_addr: String,
    /// Address advertised to clients; `listen_addr` when absent.
    pub public_addr: Option<String>,
    /// Maximum number of concurrent connections.
    pub max_connections: usize,
    /// Router buffer size for message queuing.
    pub router_buffer_size: usize,
    /// Client keepalive timeout in seconds.
    pub keepalive_secs: u16,
    /// Maximum packet size in bytes.
    pub max_packet_size: usize,
    /// Maximum QoS level (0, 1 or 2).
    pub max_qos: u8,
}

/// Default MQTT listen address.
pub fn default_mqtt_listen() -> (res: String)
    ensures
        res@ == "0.0.0.0:1883"@,
{
    "0.0.0.0:1883".to_string()
}

/// Default connection limit.
pub fn default_max_connections() -> (res: usize)
    ensures
        res == 10000,
{
    10000
}

/// Default router buffer size.
pub fn default_router_buffer() -> (res: usize)
    ensures
        res == 50000,
{
    50000
}

/// Default keepalive in seconds.
pub fn default_keepalive() -> (res: u16)
    ensures
        res == 30,
{
    30
}

/// Default maximum packet size: 256 KiB.
pub fn default_max_packet_size() -> (res: usize)
    ensures
        res == 256 * 1024,
{
    256 * 1024
}

/// Default maximum QoS.
pub fn default_max_qos() -> (res: u8)
    ensures
        res == 1,
{
    1
}

impl Default for MqttConfig {
    fn default() -> (res: Self)
        ensures
            res.listen_addr@ == "0.0.0.0:1883"@,
            res.public_addr is None,
            res.max_connections == 10000,
            res.router_buffer_size == 50000,
            res.keepalive_secs == 30,
            res.max_packet_size == 262144,
            res.max_qos == 1,
    {
        MqttConfig {
            listen_addr: default_mqtt_listen(),
            public_addr: None,
            max_connections: default_max_connections(),
            router_buffer_size: default_router_buffer(),
            keepalive_secs: default_keepalive(),
            max_packet_size: default_max_packet_size(),
            max_qos: default_max_qos(),
        }
    }
}

/// Authentication configuration.
#[derive(Debug, Clone)]
pub struct AuthConfig {
    /// Valid API keys (kept as SHA-256 hashes by the validator).
    pub api_keys: Vec<String>,
    /// Whether authentication is required.
    pub require_auth: bool,
    /// Where to look for the API key in the MQTT CONNECT packet.
    pub api_key_source: ApiKeySource,
}

/// Default for `require_auth`.
pub fn default_require_auth() -> (res: bool)
    ensures
        res,
{
    true
}

impl Default for AuthConfig {
    fn default() -> (res: Self)
        ensures
            res.api_keys@.len() == 0,
            res.require_auth,
            res.api_key_source == ApiKeySource::Password,
    {
        AuthConfig {
            api_keys: Vec::new(),
            require_auth: true,
            api_key_source: ApiKeySource::default(),
        }
    }
}

/// Where to extract the API key from an MQTT CONNECT.
#[derive(PartialEq, Eq, Structural, Clone, Copy, Debug)]
pub enum ApiKeySource {
    /// The MQTT password field.
    Password,
    /// The MQTT username field.
    Username,
}

impl Default for ApiKeySource {
    fn default() -> (res: Self)
        ensures
            res == ApiKeySource::Password,
    {
        ApiKeySource::Password
    }
}

/// Cluster configuration.
#[derive(Debug, Clone)]
pub struct ClusterConfig {
    /// Whether clustering is enabled.
    pub enabled: bool,
    /// Bind address for cluster communication.
    pub bind_addr: String,
    /// Groups assigned to this node (empty means all groups).
    pub assigned_groups: Vec<String>,
    /// Node discovery configuration.
    pub discovery: DiscoveryConfig,
}

/// Default cluster bind address.
pub fn default_cluster_bind() -> (res: String)
    ensures
        res@ == "0.0.0.0:7000"@,
{
    "0.0.0.0:7000".to_string()
}

impl Default for ClusterConfig {
    /// Defaults: disabled, bound to 0.0.0.0:7000, no groups, no discovery.
    fn default() -> (res: Self)
        ensures
            !res.enabled,
            res.bind_addr@ == "0.0.0.0:7000"@,
            res.assigned_groups@.len() == 0,
            res.discovery.static_peers@.len() == 0,
            res.discovery.dns_name is None,
            res.discovery.etcd_endpoints@.len() == 0,
    {
        ClusterConfig {
            enabled: false,
            bind_addr: default_cluster_bind(),
            assigned_groups: Vec::new(),
            discovery: DiscoveryConfig::default(),
        }
    }
}

/// Cluster node discovery configuration.
#[derive(Debug, Clone)]
pub struct DiscoveryConfig {
    /// Static peer addresses.
    pub static_peers: Vec<String>,
    /// DNS name for SRV record discovery.
    pub dns_name: Option<String>,
    /// etcd endpoints.
    pub etcd_endpoints: Vec<String>,
}

impl Default for DiscoveryConfig {
    fn default() -> (res: Self)
        ensures
            res.static_peers@.len() == 0,
            res.dns_name is None,
            res.etcd_endpoints@.len() == 0,
    {
        DiscoveryConfig { static_peers: Vec::new(), dns_name: None, etcd_endpoints: Vec::new() }
    }
}

/// Prometheus metrics configuration.
#[derive(Debug, Clone)]
pub struct MetricsConfig {
    /// Whether metrics are enabled.
    pub enabled: bool,
    /// Listen address of the metrics HTTP endpoint.
    pub listen_addr: String,
}

/// Default for boolean switches that are on unless configured.
pub fn default_true() -> (res: bool)
    ensures
        res,
{
    true
}

/// Default metrics listen address.
pub fn default_metrics_listen() -> (res: String)
    ensures
        res@ == "0.0.0.0:9090"@,
{
    "0.0.0.0:9090".to_string()
}

impl Default for MetricsConfig {
    fn default() -> (res: Self)
        ensures
            res.enabled,
            res.listen_addr@ == "0.0.0.0:9090"@,
    {
        MetricsConfig { enabled: true, listen_addr: default_metrics_listen() }
    }
}

/// Management API configuration.
#[derive(Debug, Clone)]
pub struct ApiConfig {
    /// Listen address of the API HTTP endpoint.
    pub listen_addr: String,
    /// Whether the web dashboard is enabled.
    pub dashboard_enabled: bool,
    /// CORS allowed origins.
    pub cors_origins: Vec<String>,
}

/// Default API listen address.
pub fn default_api_listen() -> (res: String)
    ensures
        res@ == "0.0.0.0:8085"@,
{
    "0.0.0.0:8085".to_string()
}

/// Default CORS origins: everything.
pub fn default_cors_origins() -> (res: Vec<String>)
    ensures
        res@.len() == 1,
        res@[0]@ == "*"@,
{
    let mut v = Vec::new();
    v.push("*".to_string());
    v
}

impl Default for ApiConfig {
    fn default() -> (res: Self)
        ensures
            res.listen_addr@ == "0.0.0.0:8085"@,
            res.dashboard_enabled,
            res.cors_origins@.len() == 1,
            res.cors_origins@[0]@ == "*"@,
    {
        ApiConfig {
            listen_addr: default_api_listen(),
            dashboard_enabled: true,
            cors_origins: default_cors_origins(),
        }
    }
}

/// Bridge to another MQTT broker.
#[derive(Debug, Clone)]
pub struct BridgeConfig {
    /// Bridge name.
    pub name: String,
    /// Remote broker address.
    pub addr: String,
    /// Topic filter to subscribe to and forward.
    pub topic: String,
    /// QoS level of the bridge subscription.
    pub qos: u8,
    /// Reconnection delay in seconds.
    pub reconnection_delay_secs: u64,
    /// Ping interval in seconds.
    pub ping_delay_secs: u64,
}

/// Default bridge topic filter.
pub fn default_bridge_topic() -> (res: String)
    ensures
        res@ == "otterwatch/#"@,
{
    "otterwatch/#".to_string()
}

/// Default bridge QoS.
pub fn default_bridge_qos() -> (res: u8)
    ensures
        res == 1,
{
    1
}

/// Default bridge reconnection delay.
pub fn default_bridge_reconnect_delay() -> (res: u64)
    ensures
        res == 5,
{
    5
}

/// Default bridge ping delay.
pub fn default_bridge_ping_delay() -> (res: u64)
    ensures
        res == 30,
{
    30
}

} // verus!
