//! Properties that span the stages: planning a bound query, then emitting SQL or Substrait.

use vstd::prelude::*;

use crate::emit::error::EmitErrorV;
use crate::emit::sql::spec_to_sql;
use crate::emit::substrait::{
    extension_functions, grouping_sets, spec_emit_expr, spec_measure, spec_to_plan, SExprV, SPlanV, SRelV,
    FUNC_AVG, FUNC_COUNT, FUNC_CURRENT_DATE, FUNC_EQUAL, FUNC_MAX, FUNC_MIN, FUNC_NOT_EQUAL, FUNC_SUBTRACT,
    FUNC_SUM,
};
use crate::plan::expr::{agg_of, agg_prefix, is_call, spec_metric_from, spec_parse_metric, AggFunc, ExprV};
use crate::plan::mnml::{ascii_lower, spec_agg_name};
use crate::plan::sql_format::{agg_name, fmt_expr};
use crate::plan::NamedAggregateV;
use crate::text::{is_prefix, spec_to_uppercase, trim};
use crate::model::semantic_model::SemanticModel;
use crate::planner::{law_plan_shape, spec_build_plan};
use crate::plan::PlanV;
use crate::resolver::bind::BoundQueryV;

verus! {

/// The Substrait plan of a planned query aggregates one grouping expression per group-by field
/// (grouped together in one grouping set when there are any) and one measure per metric, and names its outputs after the group-by expressions and then the
/// query's metrics, in the query's order.
pub proof fn law_substrait_outputs(bq: BoundQueryV, m: SemanticModel)
    requires
        spec_build_plan(bq, m) is Ok,
        spec_to_plan(spec_build_plan(bq, m)->Ok_0) is Ok,
    ensures
        spec_to_plan(spec_build_plan(bq, m)->Ok_0)->Ok_0.root is Aggregate,
        spec_to_plan(spec_build_plan(bq, m)->Ok_0)->Ok_0.root->Aggregate_grouping_expressions.len()
            == bq.group_by.len(),
        spec_to_plan(spec_build_plan(bq, m)->Ok_0)->Ok_0.root->Aggregate_groupings == grouping_sets(
            bq.group_by.len(),
        ),
        spec_to_plan(spec_build_plan(bq, m)->Ok_0)->Ok_0.root->Aggregate_measures.len() == bq.metrics.len(),
        spec_to_plan(spec_build_plan(bq, m)->Ok_0)->Ok_0.names.len() == bq.group_by.len() + bq.metrics.len(),
        forall|i: int|
            0 <= i < bq.metrics.len() ==> #[trigger] spec_to_plan(spec_build_plan(bq, m)->Ok_0)->Ok_0.names[bq.group_by.len()
                + i] == bq.metrics[i].name@,
{
    law_plan_shape(bq, m);
    let p = spec_build_plan(bq, m)->Ok_0;
    let sp = spec_to_plan(p)->Ok_0;
    let gl = bq.group_by.len();
    assert forall|i: int| 0 <= i < bq.metrics.len() implies #[trigger] sp.names[gl + i] == bq.metrics[i].name@ by {
        assert(p->Aggregate_aggregates[i].name == bq.metrics[i].name@);
    }
}

/// Both emitters take the planner's output: each refuses a plan whose root is not an aggregate,
/// with the same error.
pub proof fn law_emitters_need_aggregate_root(p: PlanV)
    requires
        !(p is Aggregate),
    ensures
        spec_to_sql(p) == Err::<Seq<char>, EmitErrorV>(EmitErrorV::Unsupported("root must be Aggregate (use planner output)"@)),
        spec_to_plan(p) == Err::<SPlanV, EmitErrorV>(EmitErrorV::Unsupported("root must be Aggregate (use planner output)"@)),
{
}

/// The SQL call that opens each aggregate: its SQL name and an opening parenthesis.
pub open spec fn sql_call_prefix(f: AggFunc) -> Seq<char> {
    match f {
        AggFunc::Count => "COUNT("@,
        AggFunc::Sum => "SUM("@,
        AggFunc::Avg => "AVG("@,
        AggFunc::Min => "MIN("@,
        AggFunc::Max => "MAX("@,
    }
}

/// The lower-case name of each aggregate (as Substrait's extensions and MNML spell it).
pub open spec fn lower_agg_name(f: AggFunc) -> Seq<char> {
    match f {
        AggFunc::Count => "count"@,
        AggFunc::Sum => "sum"@,
        AggFunc::Avg => "avg"@,
        AggFunc::Min => "min"@,
        AggFunc::Max => "max"@,
    }
}

/// Whether the plan's extension declarations give anchor `f` the function name `name`.
pub open spec fn registered_as(f: u32, name: Seq<char>) -> bool {
    exists|k: int|
        0 <= k < extension_functions().len() && (#[trigger] extension_functions()[k]).1 == f
            && extension_functions()[k].2 == name
}

/// The SQL of an aggregate opens with that aggregate's own SQL name: `COUNT(`, `SUM(`, `AVG(`,
/// `MIN(` or `MAX(`, whatever its argument and qualification.
pub proof fn law_sql_aggregate_name(func: AggFunc, distinct: bool, arg: Option<Box<ExprV>>, qualify: bool)
    ensures
        is_prefix(sql_call_prefix(func), fmt_expr(ExprV::Agg { func, distinct, arg }, qualify)),
{
    reveal_strlit("COUNT");
    reveal_strlit("SUM");
    reveal_strlit("AVG");
    reveal_strlit("MIN");
    reveal_strlit("MAX");
    reveal_strlit("(");
    reveal_strlit("COUNT(");
    reveal_strlit("SUM(");
    reveal_strlit("AVG(");
    reveal_strlit("MIN(");
    reveal_strlit("MAX(");
    let t = fmt_expr(ExprV::Agg { func, distinct, arg }, qualify);
    let p = sql_call_prefix(func);
    assert(agg_name(func) + "("@ =~= p);
    assert(t.subrange(0, p.len() as int) =~= p);
}

/// A metric parsed as an aggregate names that aggregate: its trimmed text opens with the
/// aggregate's SQL call (`MAX(` for `Max`, and so on), or it is `COUNT(*)` / `COUNT(1)` in any
/// case, read as `Count`.
pub proof fn law_parse_metric_name(sql: Seq<char>)
    ensures
        spec_parse_metric(sql) matches ExprV::Agg { func, .. } ==> is_prefix(sql_call_prefix(func), trim(sql)) || (
        func == AggFunc::Count && (spec_to_uppercase(trim(sql)) == "COUNT(*)"@ || spec_to_uppercase(trim(sql))
            == "COUNT(1)"@)),
{
    let s = trim(sql);
    lemma_metric_from_name(s, 0);
}

proof fn lemma_metric_from_name(s: Seq<char>, k: int)
    ensures
        spec_metric_from(s, k) matches ExprV::Agg { func, .. } ==> is_prefix(sql_call_prefix(func), s),
    decreases 5 - k,
{
    if k >= 5 || k < 0 {
    } else if is_call(s, agg_prefix(k)) {
        assert(sql_call_prefix(agg_of(k)) == agg_prefix(k));
    } else {
        lemma_metric_from_name(s, k + 1);
    }
}

/// Emitting a comparison calls the function the plan declares under that comparison's name:
/// `=` the one named `equal`, `<>` the one named `not_equal`, `-` the one named `subtract`, over
/// the two emitted sides in order; `CURRENT_DATE` calls the one named `current_date`.
pub proof fn law_emit_comparisons(l: ExprV, r: ExprV, cols: Seq<(Seq<char>, Seq<char>)>)
    ensures
        spec_emit_expr(ExprV::Eq(Box::new(l), Box::new(r)), cols) is Ok ==> (spec_emit_expr(
            ExprV::Eq(Box::new(l), Box::new(r)),
            cols,
        )->Ok_0 matches SExprV::Call { function, args } && registered_as(function, "equal"@) && args == seq![
            spec_emit_expr(l, cols)->Ok_0,
            spec_emit_expr(r, cols)->Ok_0,
        ]),
        spec_emit_expr(ExprV::Ne(Box::new(l), Box::new(r)), cols) is Ok ==> (spec_emit_expr(
            ExprV::Ne(Box::new(l), Box::new(r)),
            cols,
        )->Ok_0 matches SExprV::Call { function, args } && registered_as(function, "not_equal"@) && args
            == seq![spec_emit_expr(l, cols)->Ok_0, spec_emit_expr(r, cols)->Ok_0]),
        spec_emit_expr(ExprV::Sub(Box::new(l), Box::new(r)), cols) is Ok ==> (spec_emit_expr(
            ExprV::Sub(Box::new(l), Box::new(r)),
            cols,
        )->Ok_0 matches SExprV::Call { function, args } && registered_as(function, "subtract"@) && args
            == seq![spec_emit_expr(l, cols)->Ok_0, spec_emit_expr(r, cols)->Ok_0]),
        spec_emit_expr(ExprV::CurrentDate, cols) matches Ok(SExprV::Call { function, args }) && registered_as(
            function,
            "current_date"@,
        ) && args.len() == 0,
{
    let t = extension_functions();
    assert(t[5].1 == FUNC_EQUAL && t[5].2 == "equal"@);
    assert(t[6].1 == FUNC_NOT_EQUAL && t[6].2 == "not_equal"@);
    assert(t[9].1 == FUNC_SUBTRACT && t[9].2 == "subtract"@);
    assert(t[10].1 == FUNC_CURRENT_DATE && t[10].2 == "current_date"@);
}

/// A measure aggregates with the function the plan declares under the aggregate's own name
/// (`max` for `Max`, and so on).
pub proof fn law_emit_measure_name(a: NamedAggregateV, cols: Seq<(Seq<char>, Seq<char>)>)
    ensures
        spec_measure(a, cols) is Ok ==> a.expr is Agg && registered_as(
            spec_measure(a, cols)->Ok_0.function,
            lower_agg_name(a.expr->Agg_func),
        ),
{
    let t = extension_functions();
    assert(t[0].1 == FUNC_SUM && t[0].2 == "sum"@);
    assert(t[1].1 == FUNC_AVG && t[1].2 == "avg"@);
    assert(t[2].1 == FUNC_COUNT && t[2].2 == "count"@);
    assert(t[3].1 == FUNC_MIN && t[3].2 == "min"@);
    assert(t[4].1 == FUNC_MAX && t[4].2 == "max"@);
}

/// An MNML aggregate name is read as the aggregate of that name, in any ASCII case: whatever
/// aggregate a name is read as, its lower-case form is that aggregate's name.
pub proof fn law_mnml_aggregate_name(name: Seq<char>)
    ensures
        spec_agg_name(name) matches Ok(f) ==> ascii_lower(name) == lower_agg_name(f),
{
}

/// SQL comparisons and differences are written with the SQL operators `=`, `<>` and `-`
/// between their two sides (a difference in parentheses).
pub proof fn law_sql_comparisons(l: ExprV, r: ExprV, qualify: bool)
    ensures
        fmt_expr(ExprV::Eq(Box::new(l), Box::new(r)), qualify) == fmt_expr(l, qualify) + " = "@ + fmt_expr(
            r,
            qualify,
        ),
        fmt_expr(ExprV::Ne(Box::new(l), Box::new(r)), qualify) == fmt_expr(l, qualify) + " <> "@ + fmt_expr(
            r,
            qualify,
        ),
        fmt_expr(ExprV::Sub(Box::new(l), Box::new(r)), qualify) == "("@ + fmt_expr(l, qualify) + " - "@
            + fmt_expr(r, qualify) + ")"@,
{
}

} // verus!
