//! ANSI-style SQL text from a [`LogicalPlan`].

use vstd::prelude::*;

use super::error::{EmitError, EmitErrorV};
use crate::plan::display::{exprs_text, join_on_text, push_exprs};
use crate::plan::expr::{exprs_view, Expr, ExprV};
use crate::plan::sql_format::{fmt_expr, fmt_join, format_join_on, push_expr};
use crate::plan::{aggregates_view, join_keys_view, LogicalPlan, NamedAggregate, NamedAggregateV, PlanV};
use crate::sql_quote::{push_table_expr, spec_table_expr};
use crate::text::{
    double_char, join_strs, push_char, push_doubling, push_joined, push_str, str_chars, strings_view,
};

verus! {

/// Whether `c` may stand in an unquoted identifier.
pub open spec fn ident_char(c: char) -> bool {
    ('a' <= c && c <= 'z') || ('A' <= c && c <= 'Z') || ('0' <= c && c <= '9') || c == '_'
}

/// An output name as a SQL identifier: as it is when made of ASCII letters, digits and `_`,
/// else double-quoted with `"` doubled.
pub open spec fn spec_quote_ident(name: Seq<char>) -> Seq<char> {
    if forall|i: int| 0 <= i < name.len() ==> ident_char(#[trigger] name[i]) {
        name
    } else {
        seq!['"'] + double_char(name, '"') + seq!['"']
    }
}

fn push_quoted_ident(out: &mut String, name: &str)
    ensures
        final(out)@ == old(out)@ + spec_quote_ident(name@),
{
    let cs = str_chars(name);
    let mut i: usize = 0;
    while i < cs.len()
        invariant
            cs@ == name@,
            i <= cs.len(),
            out@ == old(out)@,
            forall|j: int| 0 <= j < i ==> ident_char(#[trigger] cs@[j]),
        decreases cs.len() - i,
    {
        let c = cs[i];
        if !(('a' <= c && c <= 'z') || ('A' <= c && c <= 'Z') || ('0' <= c && c <= '9') || c == '_') {
            push_char(out, '"');
            push_doubling(out, name, '"');
            push_char(out, '"');
            return;
        }
        i = i + 1;
    }
    push_str(out, name);
}

/// Whether the plan under an aggregate reads more than one table.
pub open spec fn spec_is_multi_table(p: PlanV) -> bool
    decreases p,
{
    match p {
        PlanV::Join { .. } => true,
        PlanV::Filter { input, .. } => spec_is_multi_table(*input),
        _ => false,
    }
}

fn is_multi_table(plan: &LogicalPlan) -> (res: bool)
    ensures
        res == spec_is_multi_table(plan@),
    decreases plan,
{
    match plan {
        LogicalPlan::Join { .. } => true,
        LogicalPlan::Filter { input, .. } => is_multi_table(input),
        _ => false,
    }
}

/// The `FROM` text of a scan or join tree.
pub open spec fn spec_from(p: PlanV, qualify: bool) -> Result<Seq<char>, EmitErrorV>
    decreases p,
{
    match p {
        PlanV::Scan { source, .. } => Ok(spec_table_expr(source)),
        PlanV::Join { left, right, on } => match spec_from(*left, qualify) {
            Err(e) => Err(e),
            Ok(l) => match spec_from(*right, qualify) {
                Err(e) => Err(e),
                Ok(r) => Ok(l + " INNER JOIN "@ + r + " ON "@ + join_on_text(on, qualify)),
            },
        },
        PlanV::Filter { .. } => Err(EmitErrorV::InvalidPlan("Filter must be peeled before FROM"@)),
        PlanV::Aggregate { .. } => Err(EmitErrorV::Unsupported("nested Aggregate under FROM"@)),
    }
}

/// The plan under its filters, and the filter predicates from the outermost in.
pub open spec fn spec_peel(p: PlanV) -> (PlanV, Seq<ExprV>)
    decreases p,
{
    match p {
        PlanV::Filter { input, predicate } => {
            let (base, preds) = spec_peel(*input);
            (base, seq![predicate] + preds)
        },
        _ => (p, Seq::empty()),
    }
}

/// The `FROM` text and the `WHERE` predicate text of the input of an aggregate.
pub open spec fn spec_from_where(p: PlanV, qualify: bool) -> Result<(Seq<char>, Option<Seq<char>>), EmitErrorV> {
    let (base, preds) = spec_peel(p);
    match spec_from(base, qualify) {
        Err(e) => Err(e),
        Ok(from) => Ok(
            (from, if preds.len() == 0 {
                None
            } else {
                Some(fmt_join(preds, qualify, " AND "@))
            }),
        ),
    }
}

/// The `SELECT` items: group-by expressions, then each aggregate as `expr AS name`.
pub open spec fn select_items(group_by: Seq<ExprV>, aggs: Seq<NamedAggregateV>, qualify: bool) -> Seq<Seq<char>> {
    Seq::new(group_by.len(), |i: int| fmt_expr(group_by[i], qualify)) + Seq::new(
        aggs.len(),
        |i: int| fmt_expr(aggs[i].expr, qualify) + " AS "@ + spec_quote_ident(aggs[i].name),
    )
}

/// The `SELECT` statement for an aggregate over `input`.
pub open spec fn spec_aggregate_sql(input: PlanV, group_by: Seq<ExprV>, aggs: Seq<NamedAggregateV>, qualify: bool) -> Result<Seq<char>, EmitErrorV> {
    match spec_from_where(input, qualify) {
        Err(e) => Err(e),
        Ok((from, where_text)) => {
            let items = select_items(group_by, aggs, qualify);
            if items.len() == 0 {
                Err(EmitErrorV::InvalidPlan("empty SELECT"@))
            } else {
                Ok(
                    "SELECT "@ + join_strs(items, ", "@) + " FROM "@ + from + match where_text {
                        Some(w) => " WHERE "@ + w,
                        None => Seq::empty(),
                    } + if group_by.len() > 0 {
                        " GROUP BY "@ + exprs_text(group_by, qualify)
                    } else {
                        Seq::empty()
                    },
                )
            }
        },
    }
}

/// The single `SELECT` statement for a plan: its root must be an aggregate; columns are
/// qualified when the input joins tables.
pub open spec fn spec_to_sql(p: PlanV) -> Result<Seq<char>, EmitErrorV> {
    match p {
        PlanV::Aggregate { input, group_by, aggregates } => spec_aggregate_sql(
            *input,
            group_by,
            aggregates,
            spec_is_multi_table(*input),
        ),
        _ => Err(EmitErrorV::Unsupported("root must be Aggregate (use planner output)"@)),
    }
}

fn from_join_or_scan(plan: &LogicalPlan, qualify: bool) -> (res: Result<String, EmitError>)
    ensures
        match spec_from(plan@, qualify) {
            Ok(t) => res matches Ok(s) && s@ == t,
            Err(e) => res matches Err(x) && x@ == e,
        },
    decreases plan,
{
    match plan {
        LogicalPlan::Scan { source, .. } => Ok(crate::sql_quote::dotted_osi_name_as_sql_table_expr(source.as_str())),
        LogicalPlan::Join { left, right, on } => {
            let l = match from_join_or_scan(left, qualify) {
                Ok(l) => l,
                Err(e) => {
                    return Err(e);
                },
            };
            let r = match from_join_or_scan(right, qualify) {
                Ok(r) => r,
                Err(e) => {
                    return Err(e);
                },
            };
            let mut out = l;
            push_str(&mut out, " INNER JOIN ");
            push_str(&mut out, r.as_str());
            push_str(&mut out, " ON ");
            let parts = format_join_on(on.as_slice(), qualify);
            proof {
                let ov = join_keys_view(on@);
                assert(strings_view(parts@) =~= Seq::new(
                    ov.len(),
                    |i: int| crate::plan::sql_format::fmt_join_key(ov[i], qualify),
                ));
            }
            push_joined(&mut out, &parts, " AND ");
            Ok(out)
        },
        LogicalPlan::Filter { .. } => Err(EmitError::InvalidPlan("Filter must be peeled before FROM")),
        LogicalPlan::Aggregate { .. } => Err(EmitError::Unsupported("nested Aggregate under FROM")),
    }
}

/// The base plan under the filters of `plan`, with their predicates pushed onto `preds`.
fn collect_filters<'a>(plan: &'a LogicalPlan, preds: &mut Vec<&'a Expr>) -> (base: &'a LogicalPlan)
    ensures
        base@ == spec_peel(plan@).0,
        exprs_view(final(preds)@.map_values(|e: &Expr| *e)) == exprs_view(old(preds)@.map_values(|e: &Expr| *e)) + spec_peel(plan@).1,
    decreases plan,
{
    match plan {
        LogicalPlan::Filter { input, predicate } => {
            let ghost before = preds@;
            preds.push(predicate);
            proof {
                assert(exprs_view(preds@.map_values(|e: &Expr| *e)) =~= exprs_view(before.map_values(|e: &Expr| *e)) + seq![predicate@]);
            }
            let b = collect_filters(input, preds);
            proof {
                assert(exprs_view(before.map_values(|e: &Expr| *e)) + seq![predicate@] + spec_peel(input@).1
                    =~= exprs_view(before.map_values(|e: &Expr| *e)) + (seq![predicate@] + spec_peel(input@).1));
            }
            b
        },
        _ => {
            proof {
                assert(exprs_view(preds@.map_values(|e: &Expr| *e)) + Seq::<ExprV>::empty() =~= exprs_view(preds@.map_values(|e: &Expr| *e)));
            }
            plan
        },
    }
}

fn push_predicates(out: &mut String, preds: &Vec<&Expr>, qualify: bool)
    ensures
        final(out)@ == old(out)@ + fmt_join(exprs_view(preds@.map_values(|e: &Expr| *e)), qualify, " AND "@),
{
    let ghost ev = exprs_view(preds@.map_values(|e: &Expr| *e));
    let ghost start = out@;
    let mut i: usize = 0;
    while i < preds.len()
        invariant
            ev == exprs_view(preds@.map_values(|e: &Expr| *e)),
            i <= preds.len(),
            out@ == start + fmt_join(ev.take(i as int), qualify, " AND "@),
        decreases preds.len() - i,
    {
        proof {
            assert(ev.take(i + 1).drop_last() == ev.take(i as int));
            assert(ev[i as int] == preds@[i as int]@);
        }
        if i > 0 {
            push_str(out, " AND ");
        }
        push_expr(out, preds[i], qualify);
        i = i + 1;
    }
    proof {
        assert(ev.take(preds.len() as int) == ev);
    }
}

fn emit_aggregate_root(
    input: &LogicalPlan,
    group_by: &Vec<Expr>,
    aggregates: &Vec<NamedAggregate>,
    qualify: bool,
) -> (res: Result<String, EmitError>)
    ensures
        match spec_aggregate_sql(input@, exprs_view(group_by@), aggregates_view(aggregates@), qualify) {
            Ok(t) => res matches Ok(s) && s@ == t,
            Err(e) => res matches Err(x) && x@ == e,
        },
{
    let mut preds: Vec<&Expr> = Vec::new();
    let base = collect_filters(input, &mut preds);
    proof {
        assert(preds@.map_values(|e: &Expr| *e).len() == spec_peel(input@).1.len());
    }
    let from = match from_join_or_scan(base, qualify) {
        Ok(f) => f,
        Err(e) => {
            return Err(e);
        },
    };
    let mut items: Vec<String> = Vec::new();
    let mut i: usize = 0;
    while i < group_by.len()
        invariant
            i <= group_by.len(),
            items@.len() == i,
            forall|j: int| 0 <= j < i ==> #[trigger] items@[j]@ == fmt_expr(group_by@[j]@, qualify),
        decreases group_by.len() - i,
    {
        items.push(crate::plan::sql_format::format_expr(&group_by[i], qualify));
        i = i + 1;
    }
    let mut k: usize = 0;
    while k < aggregates.len()
        invariant
            k <= aggregates.len(),
            items@.len() == group_by.len() + k,
            forall|j: int| 0 <= j < group_by.len() ==> #[trigger] items@[j]@ == fmt_expr(group_by@[j]@, qualify),
            forall|j: int|
                0 <= j < k ==> #[trigger] items@[group_by.len() + j]@ == fmt_expr(aggregates@[j].expr@, qualify)
                    + " AS "@ + spec_quote_ident(aggregates@[j].name@),
        decreases aggregates.len() - k,
    {
        let mut s = crate::plan::sql_format::format_expr(&aggregates[k].expr, qualify);
        push_str(&mut s, " AS ");
        push_quoted_ident(&mut s, aggregates[k].name.as_str());
        items.push(s);
        k = k + 1;
    }
    proof {
        let gv = exprs_view(group_by@);
        let av = aggregates_view(aggregates@);
        let si = select_items(gv, av, qualify);
        assert(si.len() == items@.len());
        assert forall|j: int| 0 <= j < si.len() implies strings_view(items@)[j] == #[trigger] si[j] by {
            if j < group_by.len() {
                assert(si[j] == fmt_expr(gv[j], qualify));
            } else {
                let t = j - group_by.len();
                assert(items@[group_by.len() + t]@ == fmt_expr(aggregates@[t].expr@, qualify) + " AS "@
                    + spec_quote_ident(aggregates@[t].name@));
            }
        }
        assert(strings_view(items@) =~= si);
    }
    if items.len() == 0 {
        return Err(EmitError::InvalidPlan("empty SELECT"));
    }
    let mut sql = String::new();
    push_str(&mut sql, "SELECT ");
    push_joined(&mut sql, &items, ", ");
    push_str(&mut sql, " FROM ");
    push_str(&mut sql, from.as_str());
    if preds.len() > 0 {
        push_str(&mut sql, " WHERE ");
        push_predicates(&mut sql, &preds, qualify);
    }
    if group_by.len() > 0 {
        push_str(&mut sql, " GROUP BY ");
        push_exprs(&mut sql, group_by, qualify);
    }
    Ok(sql)
}

/// Build a single `SELECT` statement for the plan tree.
pub fn to_sql(plan: &LogicalPlan) -> (res: Result<String, EmitError>)
    ensures
        match spec_to_sql(plan@) {
            Ok(t) => res matches Ok(s) && s@ == t,
            Err(e) => res matches Err(x) && x@ == e,
        },
{
    match plan {
        LogicalPlan::Aggregate { input, group_by, aggregates } => {
            let q = is_multi_table(input);
            emit_aggregate_root(input, group_by, aggregates, q)
        },
        _ => Err(EmitError::Unsupported("root must be Aggregate (use planner output)")),
    }
}

} // verus!
