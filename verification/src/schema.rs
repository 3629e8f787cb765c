//! Connection configuration and collection schemas.

use vstd::prelude::*;
use crate::error::ConfigError;
use crate::error::ServiceError;

verus! {

/// The distance metric a collection ranks its vectors by.
#[derive(Clone, Copy, Debug, PartialEq, Eq, Structural)]
pub enum Metric {
    Cosine,
    Dot,
    Euclid,
    Manhattan,
}

/// Validated connection parameters: the endpoint address and the credential
/// attached to every call.  Built once and passed along; never mutated.
#[derive(Debug)]
pub struct ConnectionConfig {
    pub endpoint: String,
    pub credential: String,
}

impl ConnectionConfig {
    /// Packages the connection parameters, rejecting an empty endpoint and an
    /// absent credential.  Whether the endpoint parses as an address is the
    /// transport's own affair.
    pub fn connect(endpoint: String, credential: String) -> (r: Result<ConnectionConfig, ConfigError>)
        ensures
            match r {
                Ok(c) => {
                    &&& c.endpoint@ == endpoint@
                    &&& c.credential@ == credential@
                    &&& endpoint@.len() > 0
                    &&& credential@.len() > 0
                },
                Err(ConfigError::InvalidEndpoint) => endpoint@.len() == 0,
                Err(ConfigError::MissingCredential) => endpoint@.len() > 0 && credential@.len()
                    == 0,
            },
    {
        if endpoint.as_str().is_empty() {
            Err(ConfigError::InvalidEndpoint)
        } else if credential.as_str().is_empty() {
            Err(ConfigError::MissingCredential)
        } else {
            Ok(ConnectionConfig { endpoint, credential })
        }
    }
}

/// A collection's vector space: name, dimensionality, and distance metric.
/// Once the collection is created these never change.
#[derive(Debug)]
pub struct CollectionSchema {
    pub name: String,
    pub dim: u64,
    pub metric: Metric,
}

impl CollectionSchema {
    /// Builds a schema, rejecting a dimensionality of zero.
    pub fn new(name: String, dim: u64, metric: Metric) -> (r: Result<CollectionSchema, ServiceError>)
        ensures
            match r {
                Ok(s) => {
                    &&& s.name@ == name@
                    &&& s.dim == dim
                    &&& s.metric == metric
                    &&& dim >= 1
                },
                Err(e) => {
                    &&& e matches ServiceError::InvalidSchema { collection } && collection@
                        == name@
                    &&& dim == 0
                },
            },
    {
        if dim == 0 {
            Err(ServiceError::InvalidSchema { collection: name })
        } else {
            Ok(CollectionSchema { name, dim, metric })
        }
    }
}

} // verus!
