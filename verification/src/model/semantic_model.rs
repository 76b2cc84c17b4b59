//! Semantic model container (`$defs.SemanticModel`).

use vstd::prelude::*;

use super::ai_context::AiContext;
use super::dataset::Dataset;
use super::extensions::CustomExtension;
use super::metric::Metric;
use super::relationship::Relationship;

verus! {

/// Top-level container representing a complete semantic model.
pub struct SemanticModel {
    pub name: String,
    pub description: Option<String>,
    pub ai_context: Option<AiContext>,
    pub datasets: Vec<Dataset>,
    pub relationships: Vec<Relationship>,
    pub metrics: Vec<Metric>,
    pub custom_extensions: Vec<CustomExtension>,
}

} // verus!
