//! Open Semantic Interchange (OSI) semantic models: validation, query binding,
//! logical planning and SQL emission.

pub mod text;
pub mod json;
pub mod seqs;
pub mod model;
pub mod sql_quote;
pub mod plan;
pub mod planner;
pub mod query;
pub mod resolver;
pub mod emit;
pub mod error;
pub mod validate;
pub mod laws;
pub mod prelude;

pub use resolver::QueryError;
