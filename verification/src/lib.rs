//! Verified core of the OtterWatch MQTT broker.

pub mod auth;
pub mod config;
pub mod cluster;
pub mod api;
pub mod broker;
pub mod metrics;
