//! The binary packet codec.

pub mod buffer;
pub mod decoder;
pub mod encoder;
pub mod header;
pub mod packets;
pub mod roundtrip;
pub mod varint;
