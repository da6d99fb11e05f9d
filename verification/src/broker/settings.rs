//! Engine settings derived from the broker configuration.

use crate::config::schema::{BridgeConfig, Config};
use vstd::prelude::*;

verus! {

/// Per-connection settings of the MQTT engine.
pub struct ConnectionPlan {
    /// Connection timeout in milliseconds.
    pub connection_timeout_ms: u16,
    /// Maximum payload size in bytes.
    pub max_payload_size: usize,
    /// Maximum number of in-flight messages.
    pub max_inflight_count: usize,
    /// Whether clients may create filters dynamically.
    pub dynamic_filters: bool,
}

/// Router settings of the MQTT engine.
pub struct RouterPlan {
    pub max_connections: usize,
    pub max_outgoing_packet_count: u64,
    pub max_segment_size: usize,
    pub max_segment_count: usize,
}

/// The MQTT v4 listener.
pub struct ServerPlan {
    /// Server name (the node name).
    pub name: String,
    /// Listen address.
    pub listen: String,
    /// Delay between accepted connections, in milliseconds.
    pub next_connection_delay_ms: u64,
    pub connections: ConnectionPlan,
}

/// A bridge to another broker.
pub struct BridgePlan {
    pub name: String,
    pub addr: String,
    pub qos: u8,
    pub sub_path: String,
    pub reconnection_delay: u64,
    pub ping_delay: u64,
    pub connections: ConnectionPlan,
}

/// Everything the MQTT engine is started with.
pub struct BrokerSettings {
    pub router: RouterPlan,
    pub server: ServerPlan,
    /// The bridge, built from the first configured one.
    pub bridge: Option<BridgePlan>,
    /// Configured bridges beyond the first, which the engine cannot run.
    pub ignored_bridges: usize,
    /// Interval of meter pushes, in seconds.
    pub meters_push_interval: u64,
    /// Interval of alert pushes, in seconds.
    pub alerts_push_interval: u64,
}

/// Connection timeout for a keepalive: one and a half times it, plus five
/// seconds, in milliseconds, at most 65 seconds.
pub open spec fn spec_timeout_ms(secs: u32) -> int {
    if secs * 1500 + 5000 < 65000 {
        secs * 1500 + 5000
    } else {
        65000
    }
}

/// Compute the connection timeout for a keepalive in seconds.
pub fn connection_timeout_ms(secs: u32) -> (res: u16)
    requires
        secs * 1500 + 5000 <= u32::MAX,
    ensures
        res == spec_timeout_ms(secs),
{
    let t: u32 = secs * 1500 + 5000;
    if t < 65000 {
        t as u16
    } else {
        65000
    }
}

/// Whether a bridge's ping delay can be turned into a timeout (it is first
/// cut to 32 bits, then scaled; larger values would overflow).
pub open spec fn bridge_timeout_fits(bridge: BridgeConfig) -> bool {
    (bridge.ping_delay_secs as u32) * 1500 + 5000 <= u32::MAX
}

/// Derive the engine settings from the configuration.
pub fn broker_settings(config: &Config) -> (res: BrokerSettings)
    requires
        config.bridge@.len() > 0 ==> bridge_timeout_fits(config.bridge@[0]),
    ensures
        res.router.max_connections == config.mqtt.max_connections,
        res.router.max_outgoing_packet_count == config.mqtt.router_buffer_size as u64,
        res.router.max_segment_size == config.mqtt.max_packet_size,
        res.router.max_segment_count == 10,
        res.server.name@ == config.node.name@,
        res.server.listen@ == config.mqtt.listen_addr@,
        res.server.next_connection_delay_ms == 1,
        res.server.connections.connection_timeout_ms == spec_timeout_ms(
            config.mqtt.keepalive_secs as u32,
        ),
        res.server.connections.max_payload_size == config.mqtt.max_packet_size,
        res.server.connections.max_inflight_count == 100,
        !res.server.connections.dynamic_filters,
        res.meters_push_interval == 1,
        res.alerts_push_interval == 60,
        config.bridge@.len() == 0 ==> res.bridge is None && res.ignored_bridges == 0,
        config.bridge@.len() > 0 ==> (res.bridge matches Some(b) && {
            let c = config.bridge@[0];
            &&& b.name@ == c.name@
            &&& b.addr@ == c.addr@
            &&& b.qos == c.qos
            &&& b.sub_path@ == c.topic@
            &&& b.reconnection_delay == c.reconnection_delay_secs
            &&& b.ping_delay == c.ping_delay_secs
            &&& b.connections.connection_timeout_ms == spec_timeout_ms(c.ping_delay_secs as u32)
            &&& b.connections.max_payload_size == config.mqtt.max_packet_size
            &&& b.connections.max_inflight_count == 100
            &&& !b.connections.dynamic_filters
        }) && res.ignored_bridges == config.bridge@.len() - 1,
{
    let router = RouterPlan {
        max_connections: config.mqtt.max_connections,
        max_outgoing_packet_count: config.mqtt.router_buffer_size as u64,
        max_segment_size: config.mqtt.max_packet_size,
        max_segment_count: 10,
    };
    let server = ServerPlan {
        name: config.node.name.clone(),
        listen: config.mqtt.listen_addr.clone(),
        next_connection_delay_ms: 1,
        connections: ConnectionPlan {
            connection_timeout_ms: connection_timeout_ms(config.mqtt.keepalive_secs as u32),
            max_payload_size: config.mqtt.max_packet_size,
            max_inflight_count: 100,
            dynamic_filters: false,
        },
    };
    let (bridge, ignored_bridges) = if config.bridge.len() > 0 {
        let c = &config.bridge[0];
        let b = BridgePlan {
            name: c.name.clone(),
            addr: c.addr.clone(),
            qos: c.qos,
            sub_path: c.topic.clone(),
            reconnection_delay: c.reconnection_delay_secs,
            ping_delay: c.ping_delay_secs,
            connections: ConnectionPlan {
                connection_timeout_ms: connection_timeout_ms(c.ping_delay_secs as u32),
                max_payload_size: config.mqtt.max_packet_size,
                max_inflight_count: 100,
                dynamic_filters: false,
            },
        };
        (Some(b), config.bridge.len() - 1)
    } else {
        (None, 0)
    };
    BrokerSettings {
        router,
        server,
        bridge,
        ignored_bridges,
        meters_push_interval: 1,
        alerts_push_interval: 60,
    }
}

} // verus!
