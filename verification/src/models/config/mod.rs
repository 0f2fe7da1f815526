//! The broker's configuration.

pub mod listener;

use crate::models::config::listener::ListenerConfig;
use vstd::prelude::*;

verus! {

/// The whole configuration.
pub struct Config {
    pub middleware: Middleware,
    pub mqtt: MqttConfig,
}

/// Where the admin interface finds its policy files and its signing
/// secret.
pub struct Middleware {
    pub model_path: String,
    pub policy_path: String,
    pub secret: String,
}

/// The listeners that the broker is to open.
pub struct MqttConfig {
    pub listeners: Vec<ListenerConfig>,
}

} // verus!
