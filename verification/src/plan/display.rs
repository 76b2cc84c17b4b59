//! Indented tree text for a [`LogicalPlan`], one operator per line, children indented.

use vstd::prelude::*;

use super::expr::{exprs_view, Expr, ExprV};
use super::sql_format::{fmt_expr, fmt_join_key, format_join_on, push_expr};
use super::{aggregates_view, join_keys_view, LogicalPlan, NamedAggregate, NamedAggregateV, PlanV};
use crate::text::{join_strs, nat_text, push_char, push_joined, push_str, push_u64, strings_view};

verus! {

/// Join keys as `left = right` separated by ` AND `.
pub open spec fn join_on_text(on: Seq<super::expr::JoinKeyV>, qualify: bool) -> Seq<char> {
    join_strs(Seq::new(on.len(), |i: int| fmt_join_key(on[i], qualify)), " AND "@)
}

/// Expressions as SQL separated by `, `.
pub open spec fn exprs_text(es: Seq<ExprV>, qualify: bool) -> Seq<char> {
    join_strs(Seq::new(es.len(), |i: int| fmt_expr(es[i], qualify)), ", "@)
}

/// Named aggregates as `name: expr` separated by `, `.
pub open spec fn aggregates_text(aggs: Seq<NamedAggregateV>, qualify: bool) -> Seq<char> {
    join_strs(
        Seq::new(aggs.len(), |i: int| aggs[i].name + ": "@ + fmt_expr(aggs[i].expr, qualify)),
        ", "@,
    )
}

/// The lines for `plan` indented by `pad`, children indented two more spaces.
pub open spec fn node_text(plan: PlanV, pad: Seq<char>, qualify: bool) -> Seq<char>
    decreases plan,
{
    match plan {
        PlanV::Scan { source, dataset, columns } => pad + "Scan: "@ + source + " (dataset="@ + dataset
            + ", cols="@ + nat_text(columns.len()) + ")\n"@,
        PlanV::Join { left, right, on } => pad + "Join: inner on="@ + join_on_text(on, qualify) + "\n"@
            + node_text(*left, pad + "  "@, qualify) + node_text(*right, pad + "  "@, qualify),
        PlanV::Filter { input, predicate } => pad + "Filter: "@ + fmt_expr(predicate, qualify) + "\n"@
            + node_text(*input, pad + "  "@, qualify),
        PlanV::Aggregate { input, group_by, aggregates } => pad + "Aggregate: groupBy=["@
            + exprs_text(group_by, qualify) + "], aggr=["@ + aggregates_text(aggregates, qualify)
            + "]\n"@ + node_text(*input, pad + "  "@, qualify),
    }
}

/// Appends `es` as SQL separated by `, `.
pub fn push_exprs(out: &mut String, es: &Vec<Expr>, qualify: bool)
    ensures
        final(out)@ == old(out)@ + exprs_text(exprs_view(es@), qualify),
{
    let mut parts: Vec<String> = Vec::new();
    let mut i: usize = 0;
    while i < es.len()
        invariant
            i <= es.len(),
            parts@.len() == i,
            forall|j: int| 0 <= j < i ==> #[trigger] parts@[j]@ == fmt_expr(es@[j]@, qualify),
        decreases es.len() - i,
    {
        parts.push(super::sql_format::format_expr(&es[i], qualify));
        i = i + 1;
    }
    proof {
        let ev = exprs_view(es@);
        assert(strings_view(parts@) =~= Seq::new(ev.len(), |i: int| fmt_expr(ev[i], qualify)));
    }
    push_joined(out, &parts, ", ");
}

fn push_aggregates(out: &mut String, aggs: &Vec<NamedAggregate>, qualify: bool)
    ensures
        final(out)@ == old(out)@ + aggregates_text(aggregates_view(aggs@), qualify),
{
    let mut parts: Vec<String> = Vec::new();
    let mut i: usize = 0;
    while i < aggs.len()
        invariant
            i <= aggs.len(),
            parts@.len() == i,
            forall|j: int|
                0 <= j < i ==> #[trigger] parts@[j]@ == aggs@[j].name@ + ": "@ + fmt_expr(
                    aggs@[j].expr@,
                    qualify,
                ),
        decreases aggs.len() - i,
    {
        let mut s = String::new();
        push_str(&mut s, aggs[i].name.as_str());
        push_str(&mut s, ": ");
        push_expr(&mut s, &aggs[i].expr, qualify);
        parts.push(s);
        i = i + 1;
    }
    proof {
        let av = aggregates_view(aggs@);
        assert(strings_view(parts@) =~= Seq::new(
            av.len(),
            |i: int| av[i].name + ": "@ + fmt_expr(av[i].expr, qualify),
        ));
    }
    push_joined(out, &parts, ", ");
}

pub fn push_node(out: &mut String, plan: &LogicalPlan, pad: &str, qualify: bool)
    ensures
        final(out)@ == old(out)@ + node_text(plan@, pad@, qualify),
    decreases plan,
{
    let mut child_pad = String::from_str(pad);
    push_str(&mut child_pad, "  ");
    match plan {
        LogicalPlan::Scan { source, dataset, columns } => {
            push_str(out, pad);
            push_str(out, "Scan: ");
            push_str(out, source.as_str());
            push_str(out, " (dataset=");
            push_str(out, dataset.as_str());
            push_str(out, ", cols=");
            push_u64(out, columns.len() as u64);
            push_str(out, ")\n");
        },
        LogicalPlan::Join { left, right, on } => {
            push_str(out, pad);
            push_str(out, "Join: inner on=");
            let parts = format_join_on(on.as_slice(), qualify);
            proof {
                let ov = join_keys_view(on@);
                assert(strings_view(parts@) =~= Seq::new(ov.len(), |i: int| fmt_join_key(ov[i], qualify)));
            }
            push_joined(out, &parts, " AND ");
            push_str(out, "\n");
            push_node(out, left, child_pad.as_str(), qualify);
            push_node(out, right, child_pad.as_str(), qualify);
        },
        LogicalPlan::Filter { input, predicate } => {
            push_str(out, pad);
            push_str(out, "Filter: ");
            push_expr(out, predicate, qualify);
            push_str(out, "\n");
            push_node(out, input, child_pad.as_str(), qualify);
        },
        LogicalPlan::Aggregate { input, group_by, aggregates } => {
            push_str(out, pad);
            push_str(out, "Aggregate: groupBy=[");
            push_exprs(out, group_by, qualify);
            push_str(out, "], aggr=[");
            push_aggregates(out, aggregates, qualify);
            push_str(out, "]\n");
            push_node(out, input, child_pad.as_str(), qualify);
        },
    }
}

/// Indented, multi-line plan text.
pub struct DisplayIndent<'a>(pub &'a LogicalPlan);

/// The text that [`LogicalPlan::display_indent`] renders (unqualified columns).
pub open spec fn spec_display_indent(plan: PlanV) -> Seq<char> {
    node_text(plan, Seq::empty(), false)
}

impl<'a> DisplayIndent<'a> {
    /// The rendered tree.
    pub fn to_string(&self) -> (res: String)
        ensures
            res@ == spec_display_indent(self.0@),
    {
        let mut out = String::new();
        push_node(&mut out, self.0, "", false);
        proof {
            reveal_strlit("");
        }
        out
    }
}

impl LogicalPlan {
    /// A value that renders the plan like DataFusion's logical plan tree.
    pub fn display_indent(&self) -> (res: DisplayIndent<'_>)
        ensures
            res.0 == self,
    {
        DisplayIndent(self)
    }

    /// The plan as indented tree text (what its `Display` gives).
    pub fn to_string(&self) -> (res: String)
        ensures
            res@ == spec_display_indent(self@),
    {
        self.display_indent().to_string()
    }
}

} // verus!
