//! Sessions of Pi and of agents built on it.
pub mod collector;
pub mod discovery;
pub mod sidecar;
pub mod transcript;
