//! The engine: the one place where sessions and subscriptions change.

pub mod commands;
pub mod engine;

pub use commands::{ConnectCommand, EngineCommand, PubSubCommand};
pub use engine::{Delivery, Engine, Eviction};
