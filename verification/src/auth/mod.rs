//! API key authentication for MQTT client connections.

pub mod api_key;

pub use api_key::ApiKeyValidator;
