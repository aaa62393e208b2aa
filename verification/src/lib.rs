//! Core of a write-ingestion router for a distributed time-series database.
//!
//! The library accepts decoded write requests and drives them through a
//! pipeline of stages: namespace autocreation, schema validation, time-based
//! partitioning, and a fan-out that publishes every partition group to a
//! deterministically chosen write-buffer shard. Every stage is a verified
//! state transformer with an exact contract; the external collaborators
//! (catalog, write buffer) are modelled as explicitly passed state.

pub mod autocreate;
pub mod buffer;
pub mod cache;
pub mod catalog;
pub mod errors;
pub mod metrics;
pub mod partition;
pub mod pipeline;
pub mod schema;
pub mod sharder;
pub mod types;
pub mod validator;
