//! Errors from resolving a query against an OSI document.

use vstd::prelude::*;

use crate::text::{debug_str, join_strs, push_char, push_str, spec_debug_str};

verus! {

/// Resolution failed (unknown model, bad references, missing base dataset, ...).
#[derive(Debug)]
pub enum QueryError {
    ModelNotFound(String),
    DatasetNotFound(String),
    FieldNotFound(String),
    MetricNotFound(String),
    InvalidFieldRef(String),
    InconsistentBaseDataset { expected: String, got: String },
    MissingBaseDataset,
    MissingRootDataset,
    DisconnectedDatasets(Vec<String>),
    NoJoinPath { from: String, to: String },
    EmptyQuery,
    MissingExpressionSql,
    InvalidMnmlExpression(String),
}

pub enum QueryErrorV {
    ModelNotFound(Seq<char>),
    DatasetNotFound(Seq<char>),
    FieldNotFound(Seq<char>),
    MetricNotFound(Seq<char>),
    InvalidFieldRef(Seq<char>),
    InconsistentBaseDataset { expected: Seq<char>, got: Seq<char> },
    MissingBaseDataset,
    MissingRootDataset,
    DisconnectedDatasets(Seq<Seq<char>>),
    NoJoinPath { from: Seq<char>, to: Seq<char> },
    EmptyQuery,
    MissingExpressionSql,
    InvalidMnmlExpression(Seq<char>),
}

impl View for QueryError {
    type V = QueryErrorV;

    open spec fn view(&self) -> QueryErrorV {
        match self {
            QueryError::ModelNotFound(s) => QueryErrorV::ModelNotFound(s@),
            QueryError::DatasetNotFound(s) => QueryErrorV::DatasetNotFound(s@),
            QueryError::FieldNotFound(s) => QueryErrorV::FieldNotFound(s@),
            QueryError::MetricNotFound(s) => QueryErrorV::MetricNotFound(s@),
            QueryError::InvalidFieldRef(s) => QueryErrorV::InvalidFieldRef(s@),
            QueryError::InconsistentBaseDataset { expected, got } => QueryErrorV::InconsistentBaseDataset {
                expected: expected@,
                got: got@,
            },
            QueryError::MissingBaseDataset => QueryErrorV::MissingBaseDataset,
            QueryError::MissingRootDataset => QueryErrorV::MissingRootDataset,
            QueryError::DisconnectedDatasets(v) => QueryErrorV::DisconnectedDatasets(
                crate::text::strings_view(v@),
            ),
            QueryError::NoJoinPath { from, to } => QueryErrorV::NoJoinPath { from: from@, to: to@ },
            QueryError::EmptyQuery => QueryErrorV::EmptyQuery,
            QueryError::MissingExpressionSql => QueryErrorV::MissingExpressionSql,
            QueryError::InvalidMnmlExpression(s) => QueryErrorV::InvalidMnmlExpression(s@),
        }
    }
}

/// The `Debug` text of a list of strings: each quoted, comma-separated, in brackets.
pub open spec fn debug_list(v: Seq<Seq<char>>) -> Seq<char> {
    "["@ + join_strs(Seq::new(v.len(), |i: int| spec_debug_str(v[i])), ", "@) + "]"@
}

/// The message of a resolution error.
pub open spec fn query_error_message(e: QueryErrorV) -> Seq<char> {
    match e {
        QueryErrorV::ModelNotFound(s) => "semantic model not found: "@ + spec_debug_str(s),
        QueryErrorV::DatasetNotFound(s) => "dataset not found: "@ + spec_debug_str(s),
        QueryErrorV::FieldNotFound(s) => "field not found: "@ + s,
        QueryErrorV::MetricNotFound(s) => "metric not found: "@ + spec_debug_str(s),
        QueryErrorV::InvalidFieldRef(s) => "invalid field reference "@ + spec_debug_str(s)
            + ": expected dataset.field"@,
        QueryErrorV::InconsistentBaseDataset { expected, got } => "inconsistent base dataset: expected "@
            + spec_debug_str(expected) + ", saw "@ + spec_debug_str(got),
        QueryErrorV::MissingBaseDataset =>
            "`dataset` is required when `group_by` and filters are empty but metrics are requested"@,
        QueryErrorV::MissingRootDataset =>
            "`dataset` is required as the join root when the query references more than one logical dataset"@,
        QueryErrorV::DisconnectedDatasets(v) => "datasets are not connected by relationships: "@
            + debug_list(v),
        QueryErrorV::NoJoinPath { from, to } => "no relationship join path from "@ + spec_debug_str(from)
            + " to "@ + spec_debug_str(to),
        QueryErrorV::EmptyQuery => "query must request at least one `group_by` field, metric, or filter"@,
        QueryErrorV::MissingExpressionSql => "expression has no dialect entries usable for planning"@,
        QueryErrorV::InvalidMnmlExpression(s) => "invalid MNML expression: "@ + s,
    }
}

fn push_debug(out: &mut String, s: &str)
    ensures
        final(out)@ == old(out)@ + spec_debug_str(s@),
{
    let q = debug_str(s);
    push_str(out, q.as_str());
}

pub(crate) fn push_debug_list(out: &mut String, v: &Vec<String>)
    ensures
        final(out)@ == old(out)@ + debug_list(crate::text::strings_view(v@)),
{
    let ghost start = out@;
    let ghost sv = crate::text::strings_view(v@);
    let ghost qs = Seq::new(sv.len(), |i: int| spec_debug_str(sv[i]));
    push_str(out, "[");
    let mut i: usize = 0;
    while i < v.len()
        invariant
            sv == crate::text::strings_view(v@),
            qs == Seq::new(sv.len(), |i: int| spec_debug_str(sv[i])),
            i <= v@.len(),
            out@ == start + "["@ + join_strs(qs.take(i as int), ", "@),
        decreases v@.len() - i,
    {
        let ghost before = out@;
        if i > 0 {
            push_str(out, ", ");
        }
        push_debug(out, v[i].as_str());
        proof {
            assert(sv[i as int] == v@[i as int]@);
            let t = qs.take(i + 1);
            assert(t.drop_last() =~= qs.take(i as int));
            assert(t.last() == qs[i as int]);
            if i > 0 {
                assert(join_strs(t, ", "@) == join_strs(t.drop_last(), ", "@) + ", "@ + t.last());
            } else {
                assert(join_strs(t, ", "@) == t.last());
            }
        }
        i = i + 1;
    }
    push_str(out, "]");
    proof {
        assert(qs.take(sv.len() as int) =~= qs);
    }
}

impl QueryError {
    /// The message of the error (its `Display` text).
    pub fn to_string(&self) -> (res: String)
        ensures
            res@ == query_error_message(self@),
    {
        let mut out = String::new();
        match self {
            QueryError::ModelNotFound(s) => {
                push_str(&mut out, "semantic model not found: ");
                push_debug(&mut out, s.as_str());
            },
            QueryError::DatasetNotFound(s) => {
                push_str(&mut out, "dataset not found: ");
                push_debug(&mut out, s.as_str());
            },
            QueryError::FieldNotFound(s) => {
                push_str(&mut out, "field not found: ");
                push_str(&mut out, s.as_str());
            },
            QueryError::MetricNotFound(s) => {
                push_str(&mut out, "metric not found: ");
                push_debug(&mut out, s.as_str());
            },
            QueryError::InvalidFieldRef(s) => {
                push_str(&mut out, "invalid field reference ");
                push_debug(&mut out, s.as_str());
                push_str(&mut out, ": expected dataset.field");
            },
            QueryError::InconsistentBaseDataset { expected, got } => {
                push_str(&mut out, "inconsistent base dataset: expected ");
                push_debug(&mut out, expected.as_str());
                push_str(&mut out, ", saw ");
                push_debug(&mut out, got.as_str());
            },
            QueryError::MissingBaseDataset => {
                push_str(
                    &mut out,
                    "`dataset` is required when `group_by` and filters are empty but metrics are requested",
                );
            },
            QueryError::MissingRootDataset => {
                push_str(
                    &mut out,
                    "`dataset` is required as the join root when the query references more than one logical dataset",
                );
            },
            QueryError::DisconnectedDatasets(v) => {
                push_str(&mut out, "datasets are not connected by relationships: ");
                push_debug_list(&mut out, v);
            },
            QueryError::NoJoinPath { from, to } => {
                push_str(&mut out, "no relationship join path from ");
                push_debug(&mut out, from.as_str());
                push_str(&mut out, " to ");
                push_debug(&mut out, to.as_str());
            },
            QueryError::EmptyQuery => {
                push_str(&mut out, "query must request at least one `group_by` field, metric, or filter");
            },
            QueryError::MissingExpressionSql => {
                push_str(&mut out, "expression has no dialect entries usable for planning");
            },
            QueryError::InvalidMnmlExpression(s) => {
                push_str(&mut out, "invalid MNML expression: ");
                push_str(&mut out, s.as_str());
            },
        }
        out
    }
}

} // verus!
