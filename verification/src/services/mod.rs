//! The broker's state: who subscribed to what, and who is connected.

pub mod client_service;
pub mod topic_levels;
pub mod topic_service;

pub use client_service::ClientService;
pub use topic_service::TopicService;
