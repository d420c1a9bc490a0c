//! What the library promises of its results, in terms of what it is given.
pub mod content;
pub mod hermes;
pub mod json;
pub mod kimi;
pub mod kimi_config;
pub mod kimi_log;
pub mod kimi_sessions;
pub mod looks;
pub mod number;
pub mod operations;
pub mod pi;
pub mod pi_loading;
pub mod pi_log;
pub mod pi_sessions;
pub mod process;
pub mod report;
pub mod text;
