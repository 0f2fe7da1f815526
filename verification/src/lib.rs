//! An MQTT-style publish/subscribe broker core: the wire codec, the topic
//! subscription tree, the session registry, the command engine and the
//! per-connection lifecycle, each with a machine-checked contract.

pub mod engine;
pub mod enums;
pub mod models;
pub mod protocol;
pub mod services;
pub mod transport;
pub mod utils;
