//! Dialect and vendor enumerations.

use vstd::prelude::*;

verus! {

/// Supported SQL and expression language dialects (`$defs.Dialect`).
#[derive(Clone, Copy, Debug, PartialEq, Eq, Structural)]
pub enum Dialect {
    AnsiSql,
    Snowflake,
    Mdx,
    Tableau,
    Databricks,
    /// MNML structured expression dialect.
    Mnml,
}

/// Supported vendors for custom extensions (`$defs.Vendor`).
#[derive(Clone, Copy, Debug, PartialEq, Eq, Structural)]
pub enum Vendor {
    Common,
    Snowflake,
    Salesforce,
    Dbt,
    Databricks,
    /// MNML platform extensions.
    Mnml,
}

} // verus!
