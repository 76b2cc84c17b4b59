//! Logical plan AST for OSI-backed queries.

pub mod display;
pub mod expr;
pub mod mnml;
pub mod sql_format;

use vstd::prelude::*;

use crate::model::expression::{entry_sql, DialectExpression, Expression};
use crate::model::Dialect;
use crate::seqs::{first_match, lemma_first_match_at, lemma_first_match_none};
use expr::{Expr, ExprV, JoinKey, JoinKeyV};

pub use display::DisplayIndent;
pub use expr::{parse_column_sql, parse_metric_sql, AggFunc, ColumnRef, Literal};
pub use sql_format::{format_column, format_expr, format_join_on};

verus! {

/// Root logical plan node (scan / join, then an optional filter, then an aggregate).
#[derive(Debug)]
pub enum LogicalPlan {
    Scan {
        /// Underlying relation id (the dataset's `source`).
        source: String,
        /// Logical dataset name.
        dataset: String,
        /// Physical column names exposed by this scan.
        columns: Vec<String>,
    },
    Join {
        left: Box<LogicalPlan>,
        right: Box<LogicalPlan>,
        /// Equi-join keys.
        on: Vec<JoinKey>,
    },
    Filter { input: Box<LogicalPlan>, predicate: Expr },
    Aggregate { input: Box<LogicalPlan>, group_by: Vec<Expr>, aggregates: Vec<NamedAggregate> },
}

/// Aggregate with output label (metric name).
#[derive(Debug, PartialEq)]
pub struct NamedAggregate {
    pub name: String,
    pub expr: Expr,
}

pub struct NamedAggregateV {
    pub name: Seq<char>,
    pub expr: ExprV,
}

pub enum PlanV {
    Scan { source: Seq<char>, dataset: Seq<char>, columns: Seq<Seq<char>> },
    Join { left: Box<PlanV>, right: Box<PlanV>, on: Seq<JoinKeyV> },
    Filter { input: Box<PlanV>, predicate: ExprV },
    Aggregate { input: Box<PlanV>, group_by: Seq<ExprV>, aggregates: Seq<NamedAggregateV> },
}

impl View for NamedAggregate {
    type V = NamedAggregateV;

    open spec fn view(&self) -> NamedAggregateV {
        NamedAggregateV { name: self.name@, expr: self.expr@ }
    }
}

pub open spec fn join_keys_view(s: Seq<JoinKey>) -> Seq<JoinKeyV> {
    Seq::new(s.len(), |i: int| s[i]@)
}

pub open spec fn aggregates_view(s: Seq<NamedAggregate>) -> Seq<NamedAggregateV> {
    Seq::new(s.len(), |i: int| s[i]@)
}

pub open spec fn plan_view(p: LogicalPlan) -> PlanV
    decreases p,
{
    match p {
        LogicalPlan::Scan { source, dataset, columns } => PlanV::Scan {
            source: source@,
            dataset: dataset@,
            columns: crate::text::strings_view(columns@),
        },
        LogicalPlan::Join { left, right, on } => PlanV::Join {
            left: Box::new(plan_view(*left)),
            right: Box::new(plan_view(*right)),
            on: join_keys_view(on@),
        },
        LogicalPlan::Filter { input, predicate } => PlanV::Filter {
            input: Box::new(plan_view(*input)),
            predicate: predicate@,
        },
        LogicalPlan::Aggregate { input, group_by, aggregates } => PlanV::Aggregate {
            input: Box::new(plan_view(*input)),
            group_by: expr::exprs_view(group_by@),
            aggregates: aggregates_view(aggregates@),
        },
    }
}

impl View for LogicalPlan {
    type V = PlanV;

    open spec fn view(&self) -> PlanV {
        plan_view(*self)
    }
}

/// The predicate "is an `ANSI_SQL` dialect entry".
pub open spec fn is_ansi_entry() -> spec_fn(DialectExpression) -> bool {
    |d: DialectExpression| d.dialect == Dialect::AnsiSql
}

/// The SQL text of the `ANSI_SQL` entry, else of the first entry (`None` when that entry holds
/// MNML or there is no entry).
pub open spec fn spec_pick_sql(e: Expression) -> Option<Seq<char>> {
    let i = first_match(e.dialects@, is_ansi_entry());
    if i >= 0 {
        entry_sql(e.dialects@[i])
    } else if e.dialects@.len() > 0 {
        entry_sql(e.dialects@[0])
    } else {
        None
    }
}

/// Prefer `ANSI_SQL`, else the first dialect entry.
pub fn pick_expression_sql(expr: &Expression) -> (res: Option<String>)
    ensures
        match res {
            Some(s) => spec_pick_sql(*expr) == Some(s@),
            None => spec_pick_sql(*expr) is None,
        },
{
    let ghost p = is_ansi_entry();
    let mut i: usize = 0;
    while i < expr.dialects.len()
        invariant
            p == is_ansi_entry(),
            i <= expr.dialects@.len(),
            forall|j: int| 0 <= j < i ==> !p(#[trigger] expr.dialects@[j]),
        decreases expr.dialects@.len() - i,
    {
        if expr.dialects[i].dialect == Dialect::AnsiSql {
            proof {
                lemma_first_match_at(expr.dialects@, p, i as int);
            }
            return match expr.dialects[i].sql_expression() {
                Some(s) => Some(String::from_str(s)),
                None => None,
            };
        }
        i = i + 1;
    }
    proof {
        lemma_first_match_none(expr.dialects@, p);
    }
    if expr.dialects.len() == 0 {
        return None;
    }
    match expr.dialects[0].sql_expression() {
        Some(s) => Some(String::from_str(s)),
        None => None,
    }
}

} // verus!
