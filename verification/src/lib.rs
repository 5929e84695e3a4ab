//! A verified core for a local file-copy utility with live progress.
//!
//! The crate plans a copy (which directories to create, which files to
//! transfer, and where), estimates the total size under exclusion filters,
//! detects overwrites, computes the pacing delays for throttled transfers,
//! and aggregates progress counters. All file-system and terminal work is
//! left to an unverified shell around this library.

pub mod arith;
pub mod cli;
pub mod exclude;
pub mod orchestrator;
pub mod pacing;
pub mod paths;
pub mod plan;
pub mod progress;

