//! Error taxonomy of the session manager.

use vstd::prelude::*;

verus! {

/// Errors reported by session operations.
///
/// Every operation either returns a result value or one of these errors;
/// none is swallowed except the benign "already exists" case during
/// provisioning, which is treated as success.
#[derive(Clone, Copy, Debug, PartialEq, Eq, Structural)]
pub enum SessionError {
    /// The connection address is malformed or the server is unreachable.
    ConnectionError,
    /// Database or collection creation failed for a reason other than
    /// "already exists".
    ProvisionError,
    /// A server-reported failure during enumeration or read.
    QueryError,
    /// A server-reported failure during insert, update, or delete.
    WriteError,
    /// A filtered read, update, or delete found zero matching documents.
    NotFoundError,
    /// An operation was invoked before a database and collection were
    /// selected.
    PreconditionError,
}

/// Errors reported by the JSON ingestion path.
#[derive(Clone, Copy, Debug, PartialEq, Eq, Structural)]
pub enum IngestError {
    /// The top-level input has no `groups` field.
    MissingGroups,
    /// The `groups` field is present but its value is not an array.
    GroupsNotArray,
}

} // verus!
