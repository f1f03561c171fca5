//! Pulling images: which layers are in use, what
//! holds of them over a pull, how a blob is downloaded, and the order of the steps.
pub mod download;
pub mod history;
pub mod request;
pub mod steps;
pub mod usage;
