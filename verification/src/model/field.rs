//! Logical dataset fields (`$defs.Field`).

use vstd::prelude::*;

use super::ai_context::AiContext;
use super::expression::Expression;
use super::extensions::CustomExtension;

verus! {

/// Dimension metadata on a field (`$defs.Dimension`).
pub struct FieldDimension {
    /// Whether this is a time-based dimension for temporal filtering.
    pub is_time: Option<bool>,
}

/// Row-level attribute for grouping, filtering, and metric expressions.
pub struct Field {
    pub name: String,
    pub expression: Expression,
    pub dimension: Option<FieldDimension>,
    pub label: Option<String>,
    pub description: Option<String>,
    pub ai_context: Option<AiContext>,
    pub custom_extensions: Vec<CustomExtension>,
}

} // verus!
