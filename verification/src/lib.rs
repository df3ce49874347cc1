//! Development-workflow orchestrator for a polyglot multi-module repository.
//!
//! The library models the engine that drives per-module jobs — install,
//! lint, build, test, clean, after-build — over a static dependency graph:
//! a target graph with a proved topological order, a build coordinator that
//! grants at most one execution per target, checksum records that decide
//! when a build may be skipped, and a progress tracker that multiplexes job
//! events into an aligned multi-line display.  Terminal, subprocess and
//! filesystem work stays outside; the decisions live here, verified.

pub mod target;
pub mod jobs;
pub mod decimal;
pub mod tracker;
pub mod render;
pub mod coordinator;
pub mod checksum;
pub mod orchestrator;
pub mod dlt;
pub mod shared;
