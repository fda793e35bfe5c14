//! Core of a concurrent task-execution server: request parsing, the shared
//! result cache, the admission limiter for CPU-bound work, and the
//! per-connection dispatch decisions, each with a verified contract.
//! The surrounding network and scheduler plumbing is left to the binary that
//! embeds this library.

pub mod cache;
pub mod client;
pub mod laws;
pub mod limiter;
pub mod parser;
pub mod server;
pub mod task;
