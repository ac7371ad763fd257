//! Coordination core of a worker agent that runs jobs as containers.
//!
//! The agent polls a control plane for work, launches each job in a
//! container bound to a short-lived host port, tracks the job's lifecycle
//! in a registry, and tears containers down on completion, timeout or
//! shutdown.  This crate holds the verified heart of that agent: the port
//! allocator, the job registry and its state machine, the environment
//! merge, the admission gate, the reaper's decision rules and the
//! container boot plan.  All I/O (HTTP, the container runtime, signals)
//! lives outside, feeding these functions plain values.

pub mod digits;
pub mod env;
pub mod executor;
pub mod job;
pub mod poller;
pub mod ports;
pub mod reaper;
pub mod server;
pub mod settings;
pub mod tracking;
