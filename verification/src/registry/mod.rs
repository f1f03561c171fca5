//! Talking to image registries.
pub mod cache;
pub mod challenge;
pub mod client;
pub mod resolve;
pub mod types;
