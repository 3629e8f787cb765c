//! Client-side contract layer for a remote vector similarity search service.
//!
//! The crate models the client-visible behaviour of the service: named
//! collections with a fixed vector dimensionality and distance metric, points
//! that pair a vector with a structured payload, filtered nearest-neighbour
//! queries, and extraction of nested values from returned payloads.  The
//! remote engine itself (index, storage, ranking) is an external collaborator;
//! what is specified and verified here is what a well-behaved client sends and
//! how responses are interpreted, captured by the reference model in `store`.

pub mod payload;
pub mod ident;
pub mod error;
pub mod schema;
pub mod point;
pub mod query;
pub mod result;
pub mod store;
pub mod laws;
