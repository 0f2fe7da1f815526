//! The data that the broker keeps and hands out.

pub mod claims;
pub mod config;
pub mod login;
pub mod pagination;
pub mod session;
pub mod user;

pub use config::listener;
