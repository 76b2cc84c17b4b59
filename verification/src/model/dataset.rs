//! Logical datasets (`$defs.Dataset`).

use vstd::prelude::*;

use super::ai_context::AiContext;
use super::extensions::CustomExtension;
use super::field::Field;

verus! {

/// A logical dataset: a physical source and the fields defined over it.
pub struct Dataset {
    pub name: String,
    /// Physical relation id (for example `warehouse.public.orders`).
    pub source: String,
    pub primary_key: Vec<String>,
    pub unique_keys: Vec<Vec<String>>,
    pub description: Option<String>,
    pub ai_context: Option<AiContext>,
    pub fields: Vec<Field>,
    pub custom_extensions: Vec<CustomExtension>,
}

} // verus!
