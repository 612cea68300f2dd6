//! Keeps a local directory tree and a remote one in agreement: change detection
//! between two listings, plans of reconciling actions, their execution against
//! pluggable stores, and the small pieces of logic around the transport.

pub mod clock;
pub mod config;
pub mod connection;
pub mod entries;
pub mod execute;
pub mod jobs;
pub mod laws;
pub mod limiter;
pub mod memory;
pub mod model;
pub mod paths;
pub mod plan;
pub mod progress;
pub mod secrets;
pub mod security;
pub mod state;
pub mod store;
pub mod task_queue;
pub mod watcher;
