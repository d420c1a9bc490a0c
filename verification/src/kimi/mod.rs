//! Sessions of kimi-code.
pub mod collector;
pub mod config;
pub mod index;
pub mod wire;
