//! Query request shape: group-by fields, metrics, filters.

use vstd::prelude::*;

use crate::json::JsonValue;

verus! {

/// Query body: `GROUP BY` fields, metrics, filters. The model is chosen separately.
pub struct SemanticQuery {
    /// Field references (`dataset.field`) for `GROUP BY`.
    pub group_by: Vec<String>,
    /// Metric names defined on the semantic model.
    pub metrics: Vec<String>,
    pub filters: Vec<FilterSpec>,
    /// Scan target for metrics-only queries, and the join root when several datasets are used.
    pub dataset: Option<String>,
}

impl Default for SemanticQuery {
    fn default() -> (res: Self)
        ensures
            res.group_by@.len() == 0,
            res.metrics@.len() == 0,
            res.filters@.len() == 0,
            res.dataset is None,
    {
        SemanticQuery { group_by: Vec::new(), metrics: Vec::new(), filters: Vec::new(), dataset: None }
    }
}

/// Predicate on a field (`dataset.field`).
pub struct FilterSpec {
    /// `dataset.field`
    pub field: String,
    /// Defaults: `in` if `value` is a JSON array, otherwise `eq`.
    pub operator: Option<String>,
    pub value: JsonValue,
}

impl FilterSpec {
    pub fn new(field: String, value: JsonValue) -> (res: Self)
        ensures
            res.field == field,
            res.operator is None,
            res.value == value,
    {
        FilterSpec { field, operator: None, value }
    }
}

} // verus!
