//! The SQL client layer: named database clients with their configuration,
//! a cache of database pools keyed by connection, and the SQL transport.

use vstd::prelude::*;

pub mod client;
pub mod context;
pub mod message;
pub mod pool;
pub mod transport;

verus! {

/// The kind of database behind a connection string.
#[derive(Debug, Clone, Copy, PartialEq, Eq, Hash, Structural)]
pub enum DatabaseType {
    Postgres,
    MySQL,
    SQLite,
}

/// The kind of work a SQL context carries.
#[derive(Debug, Clone, Copy, PartialEq, Eq, Structural)]
pub enum SqlExecutable {
    /// Query execution.
    Query,
}

/// The SQL protocol marker: a client-side protocol that never claims an
/// incoming connection.
#[derive(Debug, Clone, Copy, PartialEq, Eq, Structural)]
pub struct SQL;

impl SQL {
    /// SQL runs in the client role.
    pub fn role(&self) -> (r: crate::protocol::ProtocolRole)
        ensures
            r == crate::protocol::ProtocolRole::Client,
    {
        crate::protocol::ProtocolRole::Client
    }

    /// SQL never recognises the first bytes of an incoming connection.
    pub fn detect(initial_bytes: &[u8]) -> (r: bool)
        ensures
            !r,
    {
        false
    }
}

/// Middleware that logs each SQL query and its duration; the logging itself
/// is done where the query runs.
#[derive(Debug, Clone, Copy, PartialEq, Eq, Structural)]
pub struct QueryLogger;

impl QueryLogger {
    /// A shared logger.
    pub fn new() -> (r: std::sync::Arc<QueryLogger>)
        ensures
            *r == QueryLogger,
    {
        std::sync::Arc::new(QueryLogger)
    }

    /// The logger itself, for registries that rebuild middleware by type.
    pub fn return_self() -> (r: QueryLogger)
        ensures
            r == QueryLogger,
    {
        QueryLogger
    }
}

impl Default for QueryLogger {
    fn default() -> (r: QueryLogger)
        ensures
            r == QueryLogger,
    {
        QueryLogger
    }
}

} // verus!
