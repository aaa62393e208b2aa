//! The error taxonomy of the router: every failure names the stage it came
//! from, and a fan-out failure names the partition groups that failed.

use vstd::prelude::*;
use crate::types::ColumnType;

verus! {

/// Errors returned by the catalog collaborator.
#[derive(Clone, Copy, Debug, PartialEq, Eq, Structural)]
pub enum CatalogError {
    /// The catalog could not be reached (a transient transport failure).
    Unavailable,
    /// The named record does not exist.
    NotFound,
}

/// Startup-time configuration errors; these abort startup.
#[derive(Clone, Copy, Debug, PartialEq, Eq, Structural)]
pub enum ConfigError {
    /// The write buffer reported no shards at all.
    EmptyShardInventory,
}

/// One failed publish of a fan-out run: the index of the partition group,
/// its partition key, and the shard the publish was routed to.
#[derive(Clone, Copy, Debug, PartialEq, Eq, Structural)]
pub struct PublishFailure {
    pub group: usize,
    pub key: i64,
    pub shard: u64,
}

/// A request-scoped pipeline error: which stage failed and why.
#[derive(Debug)]
pub enum RouterError {
    /// Namespace autocreation could not create or fetch the namespace.
    NamespaceCreation(CatalogError),
    /// The write redefines an existing column with another type.
    SchemaConflict { table: String, column: String, existing: ColumnType, requested: ColumnType },
    /// Schema validation needed the catalog and the catalog failed.
    SchemaCatalog(CatalogError),
    /// One or more partition groups failed to publish; the groups not listed
    /// here were still attempted, and the successful ones stay published.
    WriteBuffer(Vec<PublishFailure>),
}

} // verus!
