//! A resumable scanner for `.DS_Store` files: the directory cache, the session
//! registry, the persistent work queue, the found-file log, the directory
//! prober and the traversal scheduler, each with its contract.

pub mod cache;
pub mod cli;
pub mod clock;
pub mod config;
pub mod laws;
pub mod model;
pub mod probe;
pub mod scan;
pub mod seqs;
pub mod snapshot;
pub mod stats;
pub mod sweep;
pub mod system_path;
pub mod tables;
pub mod text;
pub mod verbosity;

pub use crate::stats::SearchStats;
pub use crate::verbosity::Verbosity;
