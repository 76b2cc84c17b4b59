//! SQL (and Substrait) emission from a [`LogicalPlan`](crate::plan::LogicalPlan).

pub mod error;
pub mod sql;
pub mod substrait;

pub use error::EmitError;
