//! The life of one connection, apart from the socket that carries it.

pub mod connection;
