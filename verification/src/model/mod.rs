//! Open Semantic Interchange core types.

pub mod ai_context;
pub mod dataset;
pub mod document;
pub mod enums;
pub mod expression;
pub mod extensions;
pub mod field;
pub mod metric;
pub mod mnml_dialect;
pub mod mnml_expression;
pub mod relationship;
pub mod semantic_model;

pub use ai_context::{AiContext, AiContextStructured};
pub use dataset::Dataset;
pub use document::OsiDocument;
pub use enums::{Dialect, Vendor};
pub use expression::{
    count_mnml_dialects, pick_mnml_dialect, DialectBody, DialectExpression, Expression,
};
pub use extensions::{
    parse_mnml_dataset_storage_extensions, CustomExtension, MnmlDatasetStorage, MnmlPartitioning,
    MnmlPartitioningStyle, MnmlStorageFormat,
};
pub use field::{Field, FieldDimension};
pub use metric::Metric;
pub use mnml_dialect::{envelope_from_expression, field_mnml_expr_value, metric_mnml_to_def_value};
pub use mnml_expression::{
    is_mnml_storage_json, parse_mnml_expression_extension, MnmlExpressionEnvelope,
    MnmlExpressionKind, MnmlMetricDef,
};
pub use relationship::Relationship;
pub use semantic_model::SemanticModel;
