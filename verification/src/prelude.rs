//! The items a typical user needs: validate a document, bind a query, plan it, emit it.

pub use crate::emit::error::EmitError;
pub use crate::emit::sql::to_sql;
pub use crate::emit::substrait::to_plan;
pub use crate::error::Error;
pub use crate::model::OsiDocument;
pub use crate::plan::{pick_expression_sql, DisplayIndent, LogicalPlan};
pub use crate::planner::build_logical_plan;
pub use crate::query::SemanticQuery;
pub use crate::resolver::{bind_query, BoundJoin, BoundQuery, QueryError, ResolvedField};
pub use crate::validate::validate;
