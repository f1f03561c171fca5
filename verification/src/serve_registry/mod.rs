//! Serving the cache as a registry: what a request asks for, and how it is answered.
pub mod request;
pub mod response;
pub mod server;
