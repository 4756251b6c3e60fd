//! Execution planning and job scheduling for containerised geospatial tools.
//!
//! The library turns a tool or script reference, raw `KEY=VALUE` inputs and a
//! project's configuration into a container execution plan, and keeps the
//! in-memory registry of jobs that a service runs under a concurrency bound.
//! Everything that touches the file system, the network or the container
//! engine is left to the caller, which hands the library plain values.

pub mod text;
pub mod pairs;
pub mod gpu;
pub mod project;
pub mod plan;
pub mod jobs;
pub mod settings;
pub mod report;
pub mod server;
pub mod versioning;
pub mod registry;
