//! Relationships between datasets (`$defs.Relationship`).

use vstd::prelude::*;

use super::ai_context::AiContext;
use super::extensions::CustomExtension;

verus! {

/// Foreign key relationship between logical datasets.
pub struct Relationship {
    pub name: String,
    pub from: String,
    pub to: String,
    pub from_columns: Vec<String>,
    pub to_columns: Vec<String>,
    pub ai_context: Option<AiContext>,
    pub custom_extensions: Vec<CustomExtension>,
}

} // verus!
