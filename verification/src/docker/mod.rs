//! Talking to the docker daemon: where it listens, what it is asked, and what its answers mean.
pub mod api;
pub mod chunked;
pub mod endpoint;
pub mod layers;
pub mod pipe;
