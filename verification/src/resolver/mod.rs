//! Resolve a [`SemanticQuery`](crate::query::SemanticQuery) to concrete OSI definitions.

pub mod bind;
pub mod error;
pub mod laws;

pub use bind::{bind_query, BoundFilter, BoundJoin, BoundQuery, ResolvedField};
pub use error::QueryError;
