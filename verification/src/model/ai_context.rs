//! AI context (`$defs.AIContext`): a string or a structured object with extra keys.

use vstd::prelude::*;

use crate::json::JsonValue;

verus! {

/// Additional context for AI tools: plain string or structured object.
pub enum AiContext {
    Text(String),
    Structured(AiContextStructured),
}

/// Structured AI context with known fields plus arbitrary extension properties.
pub struct AiContextStructured {
    pub instructions: Option<String>,
    pub synonyms: Option<Vec<String>>,
    pub examples: Option<Vec<String>>,
    /// Any other keys, in the order read.
    pub extra: Vec<(String, JsonValue)>,
}

} // verus!
