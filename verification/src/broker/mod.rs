//! Broker settings: how the configuration maps onto the MQTT engine's
//! settings. Starting the engine happens outside this library.

pub mod settings;

pub use settings::{broker_settings, BrokerSettings};
