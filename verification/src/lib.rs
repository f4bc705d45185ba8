//! Change-aggregation core of a developer-loop automation tool.
//!
//! A watcher observes a directory tree and reports raw filesystem events.
//! This library owns the logic between that event stream and the command
//! pipeline it drives: scoping paths to the watched base directory, filtering
//! them through gitignore rules, coalescing bursts of events into one
//! deduplicated, sorted change set, honouring a self-inhibition flag so that a
//! running command batch cannot retrigger itself, and deciding which command
//! of a batch runs next with fail-fast short-circuiting.

pub mod aggregator;
pub mod filter;
pub mod laws;
pub mod order;
pub mod paths;
pub mod pipeline;
