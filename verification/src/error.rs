//! Error taxonomy: configuration errors, typed service errors returned to the
//! caller, and local payload-extraction errors.  A service error names the
//! failing collection and, where one exists, the offending identifier; an
//! extraction error names the offending path segment.

use vstd::prelude::*;
use crate::ident::PointId;

verus! {

/// Missing or invalid connection parameters: fatal, surfaced immediately.
#[derive(Debug, PartialEq, Eq)]
pub enum ConfigError {
    /// The endpoint address is empty and cannot name a server.
    InvalidEndpoint,
    /// No access credential was supplied.
    MissingCredential,
}

/// A typed error of a collection or point operation.
#[derive(Debug, PartialEq, Eq)]
pub enum ServiceError {
    /// The named collection does not exist.
    NotFound { collection: String },
    /// A collection of that name already exists.
    AlreadyExists { collection: String },
    /// A vector's length differs from the collection's dimensionality.
    /// `point` names the offending identifier for a write; a query vector has
    /// no identifier.
    DimensionMismatch { collection: String, point: Option<PointId>, expected: u64, actual: u64 },
    /// The requested schema is invalid: the dimensionality is zero.
    InvalidSchema { collection: String },
    /// Part of a batch failed to apply; carries the identifiers that did not.
    PartialUpsertFailure { collection: String, failed: Vec<PointId> },
    /// The call did not complete in time; it may or may not have taken effect.
    Timeout { collection: String },
    /// The transport failed; carries the transport's description.
    TransportError { detail: String },
}

/// A local payload-traversal error; never involves the network.
#[derive(Debug, PartialEq, Eq)]
pub enum ExtractionError {
    /// The named segment is absent from the mapping it was sought in.
    FieldNotFound { segment: String },
    /// The named segment's value is not a mapping, yet further traversal was
    /// required.
    NotAMapping { segment: String },
}

} // verus!
