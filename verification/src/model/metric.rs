//! Model-level metrics (`$defs.Metric`).

use vstd::prelude::*;

use super::ai_context::AiContext;
use super::expression::Expression;
use super::extensions::CustomExtension;

verus! {

/// Quantitative measure defined on business data.
pub struct Metric {
    pub name: String,
    pub expression: Expression,
    pub description: Option<String>,
    pub ai_context: Option<AiContext>,
    pub custom_extensions: Vec<CustomExtension>,
}

} // verus!
