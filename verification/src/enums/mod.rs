//! Small closed vocabularies: packet types, listener protocols, token kinds,
//! roles, and what travels through a session's mailbox.

pub mod jwt;
pub mod mailbox;
pub mod packet_type;
pub mod protocol;
pub mod role;

pub use mailbox::MqttChannel;
