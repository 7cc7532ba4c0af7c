//! Aggregates version-control activity across many local repositories into a
//! single time-bounded report: a time-window resolver, repository discovery
//! over a directory tree, commit-history parsing and classification, and a
//! deterministic, deduplicating aggregator.

pub mod aggregate;
pub mod config;
pub mod discovery;
pub mod history;
pub mod model;
pub mod origin;
pub mod period;
pub mod report;
pub mod text;

