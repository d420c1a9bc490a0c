//! Session discovery for terminal coding agents.
//!
//! Three agents are known: kimi-code, Hermes and Pi. Each keeps its sessions in
//! its own files; a collector is handed what those files and the processes of
//! the machine say, and reports the sessions that run.
pub mod activity;
pub mod bounded;
pub mod cache;
pub mod caches;
pub mod content;
pub mod hermes;
pub mod json;
pub mod jsonl;
pub mod kimi;
pub mod laws;
pub mod model;
pub mod number;
pub mod order;
pub mod pi;
pub mod policy;
pub mod process;
pub mod report;
pub mod tailing;
pub mod text;
pub mod timestamp;
