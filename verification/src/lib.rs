//! A verified core for pulling, caching, serving and exporting container images.
pub mod auth;
pub mod bytes;
pub mod cli;
pub mod commands;
pub mod compose;
pub mod digest;
pub mod docker;
pub mod error;
pub mod export;
pub mod http;
pub mod image;
pub mod image_view;
pub mod json;
pub mod local_registry;
pub mod path;
pub mod platform;
pub mod pull;
pub mod reference;
pub mod registry;
pub mod retry;
pub mod seqs;
pub mod serve_registry;
pub mod store;
pub mod test_registry;
pub mod text;
pub mod ui;
pub mod units;
