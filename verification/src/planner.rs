//! Logical plans built from bound queries: scan and joins, then an optional filter, then the
//! aggregate.

use vstd::prelude::*;

use crate::json::{json_seq_view, JsonV, JsonValue};
use crate::model::field::Field;
use crate::model::metric::Metric;
use crate::model::semantic_model::SemanticModel;
use crate::plan::expr::{
    col_v, exprs_view, literals_of, literals_view, spec_and, spec_literal_from_json, spec_parse_metric, Expr, ExprV, JoinKey,
    Literal,
};
use crate::plan::mnml::{
    expr_result, field_to_expr, find_first_dataset, first_dataset, metric_to_expr,
    physical_column_for_field, spec_field_to_expr, spec_metric_to_expr, spec_physical_column,
};
use crate::plan::{
    aggregates_view, join_keys_view, parse_metric_sql, pick_expression_sql, spec_pick_sql, LogicalPlan,
    NamedAggregate, NamedAggregateV, PlanV,
};
use crate::resolver::bind::{
    contains_name, dedup, source_index, BoundFilter, BoundJoinV, BoundQuery, BoundQueryV,
    ResolvedField,
};
use crate::resolver::error::{QueryError, QueryErrorV};
use crate::seqs::{all_ok, first_match, is_err, lemma_first_match_at, lemma_first_match_none};
use crate::text::{debug_str, push_str, spec_debug_str, str_eq, strings_view};

verus! {

/// A field's expression: its MNML expression, else its SQL as a column of its dataset.
pub open spec fn spec_field_expr(m: SemanticModel, ds: Seq<char>, f: Field) -> Result<ExprV, QueryErrorV> {
    match spec_field_to_expr(m, f, ds) {
        Err(e) => Err(e),
        Ok(Some(x)) => Ok(x),
        Ok(None) => match spec_pick_sql(f.expression) {
            None => Err(QueryErrorV::MissingExpressionSql),
            Some(sql) => Ok(col_v(ds, sql)),
        },
    }
}

fn field_expr(rf: &ResolvedField, model: &SemanticModel) -> (res: Result<Expr, QueryError>)
    ensures
        expr_result(res) == spec_field_expr(*model, rf.dataset@, *rf.field),
{
    match field_to_expr(rf.field, rf.dataset.as_str(), model) {
        Err(e) => {
            return Err(e);
        },
        Ok(Some(e)) => {
            return Ok(e);
        },
        Ok(None) => {},
    }
    match pick_expression_sql(&rf.field.expression) {
        None => Err(QueryError::MissingExpressionSql),
        Some(sql) => Ok(Expr::column(rf.dataset.clone(), sql)),
    }
}

/// A metric's expression: its MNML definition, else its SQL read as an aggregate.
pub open spec fn spec_metric_expr(m: SemanticModel, x: Metric) -> Result<ExprV, QueryErrorV> {
    match spec_metric_to_expr(m, x) {
        Err(e) => Err(e),
        Ok(Some(e)) => Ok(e),
        Ok(None) => match spec_pick_sql(x.expression) {
            None => Err(QueryErrorV::MissingExpressionSql),
            Some(sql) => Ok(spec_parse_metric(sql)),
        },
    }
}

fn metric_expr(x: &Metric, model: &SemanticModel) -> (res: Result<Expr, QueryError>)
    ensures
        expr_result(res) == spec_metric_expr(*model, *x),
{
    match metric_to_expr(x, model) {
        Err(e) => {
            return Err(e);
        },
        Ok(Some(e)) => {
            return Ok(e);
        },
        Ok(None) => {},
    }
    match pick_expression_sql(&x.expression) {
        None => Err(QueryError::MissingExpressionSql),
        Some(sql) => Ok(parse_metric_sql(sql.as_str())),
    }
}

/// The physical columns of the fields of `fs` (on dataset `n`) that have one, in order.
pub open spec fn ok_columns(m: SemanticModel, n: Seq<char>, fs: Seq<Field>) -> Seq<Seq<char>>
    decreases fs.len(),
{
    if fs.len() == 0 {
        Seq::empty()
    } else {
        match spec_physical_column(m, n, fs.last().name@) {
            Ok(c) => ok_columns(m, n, fs.drop_last()).push(c),
            Err(_) => ok_columns(m, n, fs.drop_last()),
        }
    }
}

/// The scan columns of dataset `n`: the distinct physical columns of its fields, in order; at
/// least one is needed.
pub open spec fn spec_dataset_columns(m: SemanticModel, n: Seq<char>) -> Result<Seq<Seq<char>>, QueryErrorV> {
    let di = first_dataset(m, n);
    if di < 0 {
        Err(QueryErrorV::DatasetNotFound(n))
    } else {
        let cols = dedup(ok_columns(m, n, m.datasets@[di].fields@));
        if cols.len() == 0 {
            Err(
                QueryErrorV::InvalidMnmlExpression(
                    "dataset "@ + spec_debug_str(n) + " has no physical columns for scan"@,
                ),
            )
        } else {
            Ok(cols)
        }
    }
}

fn dataset_columns(model: &SemanticModel, dataset_name: &str) -> (res: Result<Vec<String>, QueryError>)
    ensures
        match spec_dataset_columns(*model, dataset_name@) {
            Ok(c) => res matches Ok(r) && strings_view(r@) == c,
            Err(e) => res matches Err(x) && x@ == e,
        },
{
    let di = match find_first_dataset(model, dataset_name) {
        Some(i) => i,
        None => {
            return Err(QueryError::DatasetNotFound(String::from_str(dataset_name)));
        },
    };
    let ds = &model.datasets[di];
    let mut cols: Vec<String> = Vec::new();
    let mut k: usize = 0;
    while k < ds.fields.len()
        invariant
            *ds == model.datasets@[di as int],
            k <= ds.fields@.len(),
            strings_view(cols@) == dedup(ok_columns(*model, dataset_name@, ds.fields@.take(k as int))),
        decreases ds.fields@.len() - k,
    {
        let ghost before = strings_view(cols@);
        let ghost fs = ds.fields@.take(k + 1);
        proof {
            assert(fs.drop_last() =~= ds.fields@.take(k as int));
            assert(fs.last() == ds.fields@[k as int]);
        }
        match physical_column_for_field(model, dataset_name, ds.fields[k].name.as_str()) {
            Ok(name) => {
                proof {
                    let s = ok_columns(*model, dataset_name@, fs);
                    assert(s.drop_last() =~= ok_columns(*model, dataset_name@, ds.fields@.take(k as int)));
                }
                if !contains_name(&cols, name.as_str()) {
                    cols.push(name);
                    proof {
                        assert(strings_view(cols@) =~= before.push(name@));
                    }
                }
            },
            Err(_) => {},
        }
        k = k + 1;
    }
    proof {
        assert(ds.fields@.take(ds.fields@.len() as int) =~= ds.fields@);
    }
    if cols.len() == 0 {
        let mut msg = String::from_str("dataset ");
        let q = debug_str(dataset_name);
        push_str(&mut msg, q.as_str());
        push_str(&mut msg, " has no physical columns for scan");
        proof {
            reveal_strlit("dataset ");
        }
        return Err(QueryError::InvalidMnmlExpression(msg));
    }
    Ok(cols)
}

/// A column with its dataset dropped when the query reads a single dataset.
pub open spec fn spec_qualify(e: ExprV, qualify: bool) -> ExprV {
    if qualify {
        e
    } else {
        match e {
            ExprV::Column(c) => col_v(Seq::empty(), c.sql),
            _ => e,
        }
    }
}

fn qualify_column(expr: Expr, qualify: bool) -> (res: Expr)
    ensures
        res@ == spec_qualify(expr@, qualify),
{
    if qualify {
        expr
    } else {
        match expr {
            Expr::Column(c) => Expr::column(String::new(), c.sql),
            other => other,
        }
    }
}

/// A bound filter as the planner reads it: dataset and field, operator, value, right-hand field.
pub type FilterV = (Seq<char>, Field, Seq<char>, JsonV, Option<(Seq<char>, Field)>);

/// A filter as a predicate: `eq_field` / `eq_column` compare two fields; `in` with an array
/// value is membership; `ne` / `!=` is inequality; anything else is equality with the value.
pub open spec fn spec_filter_expr(m: SemanticModel, qualify: bool, f: FilterV) -> Result<ExprV, QueryErrorV> {
    match spec_field_expr(m, f.0, f.1) {
        Err(e) => Err(e),
        Ok(left) => if f.2 == "eq_field"@ || f.2 == "eq_column"@ {
            match f.4 {
                None => Err(
                    QueryErrorV::InvalidFieldRef(
                        "eq_field / eq_column filter missing RHS field binding"@,
                    ),
                ),
                Some(r) => match spec_field_expr(m, r.0, r.1) {
                    Err(e) => Err(e),
                    Ok(right) => Ok(
                        ExprV::Eq(
                            Box::new(spec_qualify(left, qualify)),
                            Box::new(spec_qualify(right, qualify)),
                        ),
                    ),
                },
            }
        } else {
            Ok(spec_value_predicate(spec_qualify(left, qualify), f.2, f.3))
        },
    }
}

/// The predicate comparing an expression with a filter value under operator `op`.
pub open spec fn spec_value_predicate(l: ExprV, op: Seq<char>, value: JsonV) -> ExprV {
    if op == "in"@ && value is Array {
        ExprV::In { expr: Box::new(l), values: literals_of(value->Array_0) }
    } else if op == "ne"@ || op == "!="@ {
        ExprV::Ne(Box::new(l), Box::new(ExprV::Literal(spec_literal_from_json(value))))
    } else {
        ExprV::Eq(Box::new(l), Box::new(ExprV::Literal(spec_literal_from_json(value))))
    }
}

/// The view of a bound filter.
pub open spec fn filter_view(f: BoundFilter) -> FilterV {
    (
        f.field.dataset@,
        *f.field.field,
        f.operator@,
        f.value@,
        match f.rhs_field {
            Some(r) => Some((r.dataset@, *r.field)),
            None => None,
        },
    )
}

fn value_predicate(l: Expr, op: &str, value: &JsonValue) -> (res: Expr)
    ensures
        res@ == spec_value_predicate(l@, op@, value@),
{
    if str_eq(op, "in") {
        if let Some(items) = value.as_array() {
            let mut values: Vec<Literal> = Vec::new();
            let mut i: usize = 0;
            while i < items.len()
                invariant
                    i <= items.len(),
                    values.len() == i,
                    forall|j: int|
                        0 <= j < i ==> (#[trigger] values@[j])@ == spec_literal_from_json(
                            json_seq_view(items@)[j],
                        ),
                decreases items.len() - i,
            {
                proof {
                    assert(json_seq_view(items@)[i as int] == items@[i as int]@);
                }
                values.push(Literal::from_json(&items[i]));
                i = i + 1;
            }
            proof {
                assert(literals_view(values@) =~= literals_of(json_seq_view(items@)));
            }
            return Expr::In { expr: Box::new(l), values };
        }
    }
    let lit = Expr::Literal(Literal::from_json(value));
    if str_eq(op, "ne") || str_eq(op, "!=") {
        let r = Expr::Ne(Box::new(l), Box::new(lit));
        assert(r@ == ExprV::Ne(Box::new(l@), Box::new(lit@)));
        r
    } else {
        let r = Expr::Eq(Box::new(l), Box::new(lit));
        assert(r@ == ExprV::Eq(Box::new(l@), Box::new(lit@)));
        r
    }
}

pub fn filter_to_expr(f: &BoundFilter, qualify: bool, model: &SemanticModel) -> (res: Result<Expr, QueryError>)
    ensures
        expr_result(res) == spec_filter_expr(*model, qualify, filter_view(*f)),
{
    let left = match field_expr(&f.field, model) {
        Ok(e) => e,
        Err(e) => {
            return Err(e);
        },
    };
    let op = f.operator.as_str();
    if str_eq(op, "eq_field") || str_eq(op, "eq_column") {
        let rhs = match &f.rhs_field {
            Some(r) => r,
            None => {
                return Err(
                    QueryError::InvalidFieldRef(
                        String::from_str("eq_field / eq_column filter missing RHS field binding"),
                    ),
                );
            },
        };
        let right = match field_expr(rhs, model) {
            Ok(e) => e,
            Err(e) => {
                return Err(e);
            },
        };
        return Ok(Expr::Eq(Box::new(qualify_column(left, qualify)), Box::new(qualify_column(right, qualify))));
    }
    Ok(value_predicate(qualify_column(left, qualify), op, &f.value))
}

/// The scan of dataset `name` in a bound query: its source and its scan columns.
pub open spec fn spec_scan(bq: BoundQueryV, m: SemanticModel, name: Seq<char>) -> Result<PlanV, QueryErrorV> {
    let si = source_index(bq.sources, name);
    if si < 0 {
        Err(QueryErrorV::DatasetNotFound(name))
    } else {
        match spec_dataset_columns(m, name) {
            Err(e) => Err(e),
            Ok(cols) => Ok(PlanV::Scan { source: bq.sources[si].1, dataset: name, columns: cols }),
        }
    }
}

/// The joins of a bound query from the `k`-th on, added to `acc` (left-deep).
pub open spec fn spec_join_from(bq: BoundQueryV, m: SemanticModel, acc: PlanV, k: nat) -> Result<
    PlanV,
    QueryErrorV,
>
    decreases bq.joins.len() - k,
{
    if k >= bq.joins.len() {
        Ok(acc)
    } else {
        match spec_scan(bq, m, bq.joins[k as int].right) {
            Err(e) => Err(e),
            Ok(r) => spec_join_from(
                bq,
                m,
                PlanV::Join { left: Box::new(acc), right: Box::new(r), on: bq.joins[k as int].on },
                k + 1,
            ),
        }
    }
}

fn scan_of(bound: &BoundQuery, model: &SemanticModel, name: &str) -> (res: Result<LogicalPlan, QueryError>)
    ensures
        match spec_scan(bound@, *model, name@) {
            Ok(p) => res matches Ok(r) && r@ == p,
            Err(e) => res matches Err(x) && x@ == e,
        },
{
    let source = match bound.source_of(name) {
        Some(s) => s.clone(),
        None => {
            return Err(QueryError::DatasetNotFound(String::from_str(name)));
        },
    };
    let columns = match dataset_columns(model, name) {
        Ok(c) => c,
        Err(e) => {
            return Err(e);
        },
    };
    Ok(LogicalPlan::Scan { source, dataset: String::from_str(name), columns })
}

fn copy_keys(keys: &Vec<JoinKey>) -> (res: Vec<JoinKey>)
    ensures
        join_keys_view(res@) == join_keys_view(keys@),
{
    let mut out: Vec<JoinKey> = Vec::new();
    let mut i: usize = 0;
    while i < keys.len()
        invariant
            i <= keys.len(),
            out.len() == i,
            forall|j: int| 0 <= j < i ==> (#[trigger] out@[j])@ == keys@[j]@,
        decreases keys.len() - i,
    {
        out.push(keys[i].copy());
        i = i + 1;
    }
    proof {
        assert(join_keys_view(out@) =~= join_keys_view(keys@));
    }
    out
}

/// The root scan with the query's joins applied in order.
fn joined_plan(bound: &BoundQuery, model: &SemanticModel) -> (res: Result<LogicalPlan, QueryError>)
    ensures
        match spec_scan(bound@, *model, bound@.root) {
            Err(e) => res matches Err(x) && x@ == e,
            Ok(root) => match spec_join_from(bound@, *model, root, 0) {
                Ok(p) => res matches Ok(r) && r@ == p,
                Err(e) => res matches Err(x) && x@ == e,
            },
        },
{
    let mut plan = match scan_of(bound, model, bound.root_dataset.as_str()) {
        Ok(p) => p,
        Err(e) => {
            return Err(e);
        },
    };
    let ghost root = plan@;
    let mut k: usize = 0;
    while k < bound.joins.len()
        invariant
            k <= bound.joins@.len(),
            spec_scan(bound@, *model, bound@.root) == Ok::<PlanV, QueryErrorV>(root),
            spec_join_from(bound@, *model, plan@, k as nat) == spec_join_from(bound@, *model, root, 0),
        decreases bound.joins@.len() - k,
    {
        let j = &bound.joins[k];
        assert(bound@.joins[k as int] == j@);
        let right = match scan_of(bound, model, j.right_dataset.as_str()) {
            Ok(p) => p,
            Err(e) => {
                return Err(e);
            },
        };
        let on = copy_keys(&j.on);
        let ghost before = plan@;
        plan = LogicalPlan::Join { left: Box::new(plan), right: Box::new(right), on };
        proof {
            assert(plan@ == PlanV::Join { left: Box::new(before), right: Box::new(right@), on: j@.on });
        }
        k = k + 1;
    }
    Ok(plan)
}

/// Each filter as a predicate.
pub open spec fn filter_results(m: SemanticModel, qualify: bool, fs: Seq<FilterV>) -> Seq<Result<ExprV, QueryErrorV>> {
    Seq::new(fs.len(), |i: int| spec_filter_expr(m, qualify, fs[i]))
}

/// Each group-by field as an expression.
pub open spec fn group_results(m: SemanticModel, qualify: bool, gs: Seq<(Seq<char>, Field)>) -> Seq<
    Result<ExprV, QueryErrorV>,
> {
    Seq::new(
        gs.len(),
        |i: int|
            match spec_field_expr(m, gs[i].0, gs[i].1) {
                Err(e) => Err(e),
                Ok(x) => Ok(spec_qualify(x, qualify)),
            },
    )
}

/// Each metric as a named aggregate.
pub open spec fn aggregate_results(m: SemanticModel, ms: Seq<Metric>) -> Seq<Result<NamedAggregateV, QueryErrorV>> {
    Seq::new(
        ms.len(),
        |i: int|
            match spec_metric_expr(m, ms[i]) {
                Err(e) => Err(e),
                Ok(x) => Ok(NamedAggregateV { name: ms[i].name@, expr: x }),
            },
    )
}

/// The logical plan of a bound query: the root scan, the joins in order, the filters combined
/// with AND (no filter node without filters), then the aggregate of the group-by fields and the
/// metrics. Columns keep their dataset only when the query reads more than one dataset. Errors
/// come from the scans, then the filters, the group-by fields and the metrics, in order.
pub open spec fn spec_build_plan(bq: BoundQueryV, m: SemanticModel) -> Result<PlanV, QueryErrorV> {
    let qualify = bq.sources.len() > 1;
    match spec_scan(bq, m, bq.root) {
        Err(e) => Err(e),
        Ok(root) => match spec_join_from(bq, m, root, 0) {
            Err(e) => Err(e),
            Ok(p) => {
                let fr: Result<PlanV, QueryErrorV> = if bq.filters.len() == 0 {
                    Ok(p)
                } else {
                    match all_ok(filter_results(m, qualify, bq.filters)) {
                        Err(e) => Err(e),
                        Ok(parts) => Ok(PlanV::Filter { input: Box::new(p), predicate: spec_and(parts) }),
                    }
                };
                match fr {
                    Err(e) => Err(e),
                    Ok(input) => match all_ok(group_results(m, qualify, bq.group_by)) {
                        Err(e) => Err(e),
                        Ok(gb) => match all_ok(aggregate_results(m, bq.metrics)) {
                            Err(e) => Err(e),
                            Ok(aggs) => Ok(
                                PlanV::Aggregate { input: Box::new(input), group_by: gb, aggregates: aggs },
                            ),
                        },
                    },
                }
            },
        },
    }
}

fn filter_parts(bound: &BoundQuery, qualify: bool, model: &SemanticModel) -> (res: Result<Vec<Expr>, QueryError>)
    ensures
        match all_ok(filter_results(*model, qualify, bound@.filters)) {
            Ok(es) => res matches Ok(r) && exprs_view(r@) == es,
            Err(e) => res matches Err(x) && x@ == e,
        },
{
    let ghost rs = filter_results(*model, qualify, bound@.filters);
    let ghost p = is_err::<ExprV, QueryErrorV>();
    let mut out: Vec<Expr> = Vec::new();
    let mut i: usize = 0;
    while i < bound.filters.len()
        invariant
            rs == filter_results(*model, qualify, bound@.filters),
            p == is_err::<ExprV, QueryErrorV>(),
            i <= bound.filters@.len(),
            rs.len() == bound.filters@.len(),
            out.len() == i,
            forall|j: int| 0 <= j < i ==> !p(#[trigger] rs[j]),
            forall|j: int| 0 <= j < i ==> rs[j] == Ok::<ExprV, QueryErrorV>(#[trigger] out@[j]@),
        decreases bound.filters@.len() - i,
    {
        assert(bound@.filters[i as int] == filter_view(bound.filters@[i as int]));
        match filter_to_expr(&bound.filters[i], qualify, model) {
            Ok(e) => {
                out.push(e);
            },
            Err(e) => {
                proof {
                    lemma_first_match_at(rs, p, i as int);
                }
                return Err(e);
            },
        }
        i = i + 1;
    }
    proof {
        lemma_first_match_none(rs, p);
        assert forall|j: int| 0 <= j < out.len() implies exprs_view(out@)[j] == all_ok(rs)->Ok_0[j] by {
            assert(rs[j] == Ok::<ExprV, QueryErrorV>(out@[j]@));
        }
        assert(exprs_view(out@) =~= all_ok(rs)->Ok_0);
    }
    Ok(out)
}

fn group_exprs(bound: &BoundQuery, qualify: bool, model: &SemanticModel) -> (res: Result<Vec<Expr>, QueryError>)
    ensures
        match all_ok(group_results(*model, qualify, bound@.group_by)) {
            Ok(es) => res matches Ok(r) && exprs_view(r@) == es,
            Err(e) => res matches Err(x) && x@ == e,
        },
{
    let ghost rs = group_results(*model, qualify, bound@.group_by);
    let ghost p = is_err::<ExprV, QueryErrorV>();
    let mut out: Vec<Expr> = Vec::new();
    let mut i: usize = 0;
    while i < bound.group_by.len()
        invariant
            rs == group_results(*model, qualify, bound@.group_by),
            p == is_err::<ExprV, QueryErrorV>(),
            i <= bound.group_by@.len(),
            rs.len() == bound.group_by@.len(),
            out.len() == i,
            forall|j: int| 0 <= j < i ==> !p(#[trigger] rs[j]),
            forall|j: int| 0 <= j < i ==> rs[j] == Ok::<ExprV, QueryErrorV>(#[trigger] out@[j]@),
        decreases bound.group_by@.len() - i,
    {
        assert(bound@.group_by[i as int] == (bound.group_by@[i as int].dataset@, *bound.group_by@[i as int].field));
        match field_expr(&bound.group_by[i], model) {
            Ok(e) => {
                out.push(qualify_column(e, qualify));
            },
            Err(e) => {
                proof {
                    lemma_first_match_at(rs, p, i as int);
                }
                return Err(e);
            },
        }
        i = i + 1;
    }
    proof {
        lemma_first_match_none(rs, p);
        assert forall|j: int| 0 <= j < out.len() implies exprs_view(out@)[j] == all_ok(rs)->Ok_0[j] by {
            assert(rs[j] == Ok::<ExprV, QueryErrorV>(out@[j]@));
        }
        assert(exprs_view(out@) =~= all_ok(rs)->Ok_0);
    }
    Ok(out)
}

fn named_aggregates(bound: &BoundQuery, model: &SemanticModel) -> (res: Result<Vec<NamedAggregate>, QueryError>)
    ensures
        match all_ok(aggregate_results(*model, bound@.metrics)) {
            Ok(aggs) => res matches Ok(r) && aggregates_view(r@) == aggs,
            Err(e) => res matches Err(x) && x@ == e,
        },
{
    let ghost rs = aggregate_results(*model, bound@.metrics);
    let ghost p = is_err::<NamedAggregateV, QueryErrorV>();
    let mut out: Vec<NamedAggregate> = Vec::new();
    let mut i: usize = 0;
    while i < bound.metrics.len()
        invariant
            rs == aggregate_results(*model, bound@.metrics),
            p == is_err::<NamedAggregateV, QueryErrorV>(),
            i <= bound.metrics@.len(),
            rs.len() == bound.metrics@.len(),
            out.len() == i,
            forall|j: int| 0 <= j < i ==> !p(#[trigger] rs[j]),
            forall|j: int| 0 <= j < i ==> rs[j] == Ok::<NamedAggregateV, QueryErrorV>(#[trigger] out@[j]@),
        decreases bound.metrics@.len() - i,
    {
        let x: &Metric = bound.metrics[i];
        assert(bound@.metrics[i as int] == *x);
        match metric_expr(x, model) {
            Ok(e) => {
                out.push(NamedAggregate { name: x.name.clone(), expr: e });
            },
            Err(e) => {
                proof {
                    lemma_first_match_at(rs, p, i as int);
                }
                return Err(e);
            },
        }
        i = i + 1;
    }
    proof {
        lemma_first_match_none(rs, p);
        assert forall|j: int| 0 <= j < out.len() implies aggregates_view(out@)[j] == all_ok(rs)->Ok_0[j] by {
            assert(rs[j] == Ok::<NamedAggregateV, QueryErrorV>(out@[j]@));
        }
        assert(aggregates_view(out@) =~= all_ok(rs)->Ok_0);
    }
    Ok(out)
}

/// Build a plan: scan (and joins), then an optional combined filter, then the aggregate.
pub fn build_logical_plan(bound: &BoundQuery, model: &SemanticModel) -> (res: Result<LogicalPlan, QueryError>)
    ensures
        match spec_build_plan(bound@, *model) {
            Ok(p) => res matches Ok(r) && r@ == p,
            Err(e) => res matches Err(x) && x@ == e,
        },
{
    let qualify = bound.sources.len() > 1;
    let plan = match joined_plan(bound, model) {
        Ok(p) => p,
        Err(e) => {
            return Err(e);
        },
    };
    let after_filter = if bound.filters.len() == 0 {
        plan
    } else {
        let parts = match filter_parts(bound, qualify, model) {
            Ok(p) => p,
            Err(e) => {
                return Err(e);
            },
        };
        let ghost pv = plan@;
        let predicate = Expr::and(parts);
        let f = LogicalPlan::Filter { input: Box::new(plan), predicate };
        assert(f@ == PlanV::Filter { input: Box::new(pv), predicate: predicate@ });
        f
    };
    let group_by = match group_exprs(bound, qualify, model) {
        Ok(g) => g,
        Err(e) => {
            return Err(e);
        },
    };
    let aggregates = match named_aggregates(bound, model) {
        Ok(a) => a,
        Err(e) => {
            return Err(e);
        },
    };
    let ghost iv = after_filter@;
    let r = LogicalPlan::Aggregate { input: Box::new(after_filter), group_by, aggregates };
    assert(r@ == PlanV::Aggregate {
        input: Box::new(iv),
        group_by: exprs_view(group_by@),
        aggregates: aggregates_view(aggregates@),
    });
    Ok(r)
}

/// The datasets a plan scans, left to right.
pub open spec fn scan_datasets(p: PlanV) -> Seq<Seq<char>>
    decreases p,
{
    match p {
        PlanV::Scan { dataset, .. } => seq![dataset],
        PlanV::Join { left, right, .. } => scan_datasets(*left) + scan_datasets(*right),
        PlanV::Filter { input, .. } => scan_datasets(*input),
        PlanV::Aggregate { input, .. } => scan_datasets(*input),
    }
}

/// The datasets that the joins from the `k`-th on attach.
pub open spec fn join_rights(js: Seq<BoundJoinV>, k: int) -> Seq<Seq<char>> {
    Seq::new((js.len() - k) as nat, |i: int| js[k + i].right)
}

proof fn lemma_join_from_scans(bq: BoundQueryV, m: SemanticModel, acc: PlanV, k: nat)
    requires
        k <= bq.joins.len(),
        spec_join_from(bq, m, acc, k) is Ok,
    ensures
        scan_datasets(spec_join_from(bq, m, acc, k)->Ok_0) == scan_datasets(acc) + join_rights(bq.joins, k as int),
        spec_join_from(bq, m, acc, k)->Ok_0 == acc || spec_join_from(bq, m, acc, k)->Ok_0 is Join,
    decreases bq.joins.len() - k,
{
    if k >= bq.joins.len() {
        assert(join_rights(bq.joins, k as int) =~= Seq::<Seq<char>>::empty());
    } else {
        let r = spec_scan(bq, m, bq.joins[k as int].right)->Ok_0;
        let next = PlanV::Join { left: Box::new(acc), right: Box::new(r), on: bq.joins[k as int].on };
        lemma_join_from_scans(bq, m, next, k + 1);
        assert(scan_datasets(r) == seq![bq.joins[k as int].right]);
        assert(join_rights(bq.joins, k as int) =~= seq![bq.joins[k as int].right] + join_rights(
            bq.joins,
            k + 1int,
        ));
    }
}

/// A plan built from a bound query aggregates at its root one group-by expression per group-by
/// field and one aggregate per metric, named after the metric and in the query's order; below it
/// there is a filter exactly when the query has filters; and the plan scans the root dataset,
/// then the dataset each join attaches, in join order.
#[verifier::rlimit(40)]
pub proof fn law_plan_shape(bq: BoundQueryV, m: SemanticModel)
    requires
        spec_build_plan(bq, m) is Ok,
    ensures
        spec_build_plan(bq, m)->Ok_0 is Aggregate,
        spec_build_plan(bq, m)->Ok_0->Aggregate_group_by.len() == bq.group_by.len(),
        spec_build_plan(bq, m)->Ok_0->Aggregate_aggregates.len() == bq.metrics.len(),
        forall|i: int|
            0 <= i < bq.metrics.len() ==> (#[trigger] spec_build_plan(bq, m)->Ok_0->Aggregate_aggregates[i]).name
                == bq.metrics[i].name@,
        (*spec_build_plan(bq, m)->Ok_0->Aggregate_input is Filter) <==> bq.filters.len() > 0,
        scan_datasets(spec_build_plan(bq, m)->Ok_0) == seq![bq.root] + join_rights(bq.joins, 0),
{
    let qualify = bq.sources.len() > 1;
    let root = spec_scan(bq, m, bq.root)->Ok_0;
    lemma_join_from_scans(bq, m, root, 0);
    let jp = spec_join_from(bq, m, root, 0)->Ok_0;
    assert(scan_datasets(root) == seq![bq.root]);
    let gs = group_results(m, qualify, bq.group_by);
    let ms = aggregate_results(m, bq.metrics);
    crate::seqs::lemma_first_match(gs, is_err::<ExprV, QueryErrorV>());
    crate::seqs::lemma_first_match(ms, is_err::<NamedAggregateV, QueryErrorV>());
    let p = spec_build_plan(bq, m)->Ok_0;
    assert(scan_datasets(*p->Aggregate_input) == scan_datasets(jp));
    assert(!(jp is Filter));
    assert forall|i: int| 0 <= i < bq.metrics.len() implies (#[trigger] p->Aggregate_aggregates[i]).name
        == bq.metrics[i].name@ by {
        assert(!is_err::<NamedAggregateV, QueryErrorV>()(ms[i]));
        assert(p->Aggregate_aggregates[i] == ms[i]->Ok_0);
    }
}

/// In a plan of a query that reads one dataset, the group-by columns carry no dataset name.
pub proof fn law_single_dataset_unqualified(bq: BoundQueryV, m: SemanticModel)
    requires
        spec_build_plan(bq, m) is Ok,
        bq.sources.len() <= 1,
    ensures
        forall|i: int|
            0 <= i < spec_build_plan(bq, m)->Ok_0->Aggregate_group_by.len() && (#[trigger] spec_build_plan(
                bq,
                m,
            )->Ok_0->Aggregate_group_by[i]) is Column ==> spec_build_plan(bq, m)->Ok_0->Aggregate_group_by[i]->Column_0.dataset
                == Seq::<char>::empty(),
{
    let gs = group_results(m, false, bq.group_by);
    crate::seqs::lemma_first_match(gs, is_err::<ExprV, QueryErrorV>());
    let p = spec_build_plan(bq, m)->Ok_0;
    assert forall|i: int| 0 <= i < p->Aggregate_group_by.len() && (#[trigger] p->Aggregate_group_by[i]) is Column implies p->Aggregate_group_by[i]->Column_0.dataset
        == Seq::<char>::empty() by {
        assert(!is_err::<ExprV, QueryErrorV>()(gs[i]));
        assert(p->Aggregate_group_by[i] == gs[i]->Ok_0);
    }
}

/// Whether `p` is the left-deep chain of the joins `js` over a scan of `root`: each join's right
/// input scans the dataset that join attaches, with the join's keys.
pub open spec fn is_left_deep(p: PlanV, root: Seq<char>, js: Seq<BoundJoinV>) -> bool
    decreases js.len(),
{
    if js.len() == 0 {
        p matches PlanV::Scan { dataset, .. } && dataset == root
    } else {
        p matches PlanV::Join { left, right, on } && on == js.last().on && (*right matches PlanV::Scan {
            dataset,
            ..
        } && dataset == js.last().right) && is_left_deep(*left, root, js.drop_last())
    }
}

proof fn lemma_join_from_left_deep(bq: BoundQueryV, m: SemanticModel, acc: PlanV, k: nat)
    requires
        k <= bq.joins.len(),
        spec_join_from(bq, m, acc, k) is Ok,
        is_left_deep(acc, bq.root, bq.joins.take(k as int)),
    ensures
        is_left_deep(spec_join_from(bq, m, acc, k)->Ok_0, bq.root, bq.joins),
    decreases bq.joins.len() - k,
{
    if k >= bq.joins.len() {
        assert(bq.joins.take(k as int) =~= bq.joins);
    } else {
        let r = spec_scan(bq, m, bq.joins[k as int].right)->Ok_0;
        let next = PlanV::Join { left: Box::new(acc), right: Box::new(r), on: bq.joins[k as int].on };
        let t = bq.joins.take((k + 1) as int);
        assert(t.drop_last() =~= bq.joins.take(k as int));
        assert(t.last() == bq.joins[k as int]);
        assert(is_left_deep(next, bq.root, t));
        lemma_join_from_left_deep(bq, m, next, (k + 1) as nat);
    }
}

/// Below its aggregate and optional filter, a planned query is the left-deep chain of its joins
/// over a scan of its root dataset, reading the root's listed source; each join's right input
/// scans the dataset that join attaches, with the join's keys.
pub proof fn law_plan_left_deep(bq: BoundQueryV, m: SemanticModel)
    requires
        spec_build_plan(bq, m) is Ok,
    ensures
        ({
            let agg_in = *spec_build_plan(bq, m)->Ok_0->Aggregate_input;
            let below = if bq.filters.len() > 0 {
                *agg_in->Filter_input
            } else {
                agg_in
            };
            is_left_deep(below, bq.root, bq.joins)
        }),
        exists|si: int|
            0 <= si < bq.sources.len() && bq.sources[si].0 == bq.root && (#[trigger] spec_scan(bq, m, bq.root))
                == Ok::<PlanV, QueryErrorV>(PlanV::Scan {
                source: bq.sources[si].1,
                dataset: bq.root,
                columns: spec_scan(bq, m, bq.root)->Ok_0->Scan_columns,
            }),
{
    let root = spec_scan(bq, m, bq.root)->Ok_0;
    assert(bq.joins.take(0) =~= Seq::<BoundJoinV>::empty());
    lemma_join_from_left_deep(bq, m, root, 0);
    law_plan_shape(bq, m);
    let si = crate::resolver::bind::source_index(bq.sources, bq.root);
    crate::seqs::lemma_first_match(bq.sources, crate::resolver::bind::source_named(bq.root));
    assert(crate::resolver::bind::source_named(bq.root)(bq.sources[si]));
}

} // verus!
