//! Structured expressions as ANSI-style SQL fragments.

use vstd::prelude::*;

use super::expr::{
    exprs_view, literals_view, pairs_view, AggFunc, ColumnRef, ColumnRefV, Expr, ExprV, JoinKey,
    JoinKeyV, Literal, LiteralV,
};
use crate::sql_quote::{push_table_expr, spec_table_expr};
use crate::text::{double_char, int_text, push_char, push_doubling, push_i64, push_str};

verus! {

/// A column as SQL: `table.sql` when qualified and the dataset is named, else just `sql`.
pub open spec fn fmt_column(c: ColumnRefV, qualify: bool) -> Seq<char> {
    if qualify && c.dataset.len() > 0 {
        spec_table_expr(c.dataset) + seq!['.'] + c.sql
    } else {
        c.sql
    }
}

/// A literal as SQL.
pub open spec fn fmt_literal(l: LiteralV) -> Seq<char> {
    match l {
        LiteralV::Null => "NULL"@,
        LiteralV::Bool(b) => if b {
            "TRUE"@
        } else {
            "FALSE"@
        },
        LiteralV::Int64(i) => int_text(i as int),
        LiteralV::Float64(t) => t,
        LiteralV::String(s) => seq!['\''] + double_char(s, '\'') + seq!['\''],
    }
}

/// Literals as SQL, separated by `, `.
pub open spec fn fmt_literals(ls: Seq<LiteralV>) -> Seq<char>
    decreases ls.len(),
{
    if ls.len() == 0 {
        Seq::empty()
    } else if ls.len() == 1 {
        fmt_literal(ls[0])
    } else {
        fmt_literals(ls.drop_last()) + ", "@ + fmt_literal(ls.last())
    }
}

pub open spec fn agg_name(f: AggFunc) -> Seq<char> {
    match f {
        AggFunc::Count => "COUNT"@,
        AggFunc::Sum => "SUM"@,
        AggFunc::Avg => "AVG"@,
        AggFunc::Min => "MIN"@,
        AggFunc::Max => "MAX"@,
    }
}

/// Expressions as SQL, separated by `sep`.
pub open spec fn fmt_join(es: Seq<ExprV>, qualify: bool, sep: Seq<char>) -> Seq<char>
    decreases es,
{
    if es.len() == 0 {
        Seq::empty()
    } else if es.len() == 1 {
        fmt_expr(es[0], qualify)
    } else {
        fmt_join(es.drop_last(), qualify, sep) + sep + fmt_expr(es.last(), qualify)
    }
}

/// `WHEN c THEN r` branches, separated by spaces.
pub open spec fn fmt_branches(ps: Seq<(ExprV, ExprV)>, qualify: bool) -> Seq<char>
    decreases ps,
{
    if ps.len() == 0 {
        Seq::empty()
    } else if ps.len() == 1 {
        "WHEN "@ + fmt_expr(ps[0].0, qualify) + " THEN "@ + fmt_expr(ps[0].1, qualify)
    } else {
        fmt_branches(ps.drop_last(), qualify) + " "@ + ("WHEN "@ + fmt_expr(ps.last().0, qualify)
            + " THEN "@ + fmt_expr(ps.last().1, qualify))
    }
}

/// An expression as ANSI-style SQL.
pub open spec fn fmt_expr(e: ExprV, qualify: bool) -> Seq<char>
    decreases e,
{
    match e {
        ExprV::Column(c) => fmt_column(c, qualify),
        ExprV::Literal(l) => fmt_literal(l),
        ExprV::Eq(l, r) => fmt_expr(*l, qualify) + " = "@ + fmt_expr(*r, qualify),
        ExprV::Ne(l, r) => fmt_expr(*l, qualify) + " <> "@ + fmt_expr(*r, qualify),
        ExprV::And(es) => fmt_join(es, qualify, " AND "@),
        ExprV::In { expr, values } => fmt_expr(*expr, qualify) + " IN ("@ + fmt_literals(values)
            + ")"@,
        ExprV::Case { when_then, else_expr } => "CASE "@ + fmt_branches(when_then, qualify)
            + " ELSE "@ + fmt_expr(*else_expr, qualify) + " END"@,
        ExprV::Sub(l, r) => "("@ + fmt_expr(*l, qualify) + " - "@ + fmt_expr(*r, qualify) + ")"@,
        ExprV::CurrentDate => "CURRENT_DATE"@,
        ExprV::Agg { func, distinct, arg } => agg_name(func) + "("@ + (if distinct {
            "DISTINCT "@
        } else {
            Seq::empty()
        }) + match arg {
            None => "*"@,
            Some(a) => fmt_expr(*a, qualify),
        } + ")"@,
        ExprV::Sql(s) => s,
    }
}

/// A join key as `left = right`.
pub open spec fn fmt_join_key(k: JoinKeyV, qualify: bool) -> Seq<char> {
    fmt_column(ColumnRefV { dataset: k.left_dataset, sql: k.left_sql }, qualify) + " = "@ + fmt_column(
        ColumnRefV { dataset: k.right_dataset, sql: k.right_sql },
        qualify,
    )
}

fn push_column(out: &mut String, dataset: &str, sql: &str, qualify: bool)
    ensures
        final(out)@ == old(out)@ + fmt_column(ColumnRefV { dataset: dataset@, sql: sql@ }, qualify),
{
    if qualify && dataset.unicode_len() > 0 {
        push_table_expr(out, dataset);
        push_char(out, '.');
        push_str(out, sql);
    } else {
        push_str(out, sql);
    }
}

pub fn format_column(col: &ColumnRef, qualify: bool) -> (res: String)
    ensures
        res@ == fmt_column(col@, qualify),
{
    let mut out = String::new();
    push_column(&mut out, col.dataset.as_str(), col.sql.as_str(), qualify);
    out
}

fn push_literal(out: &mut String, lit: &Literal)
    ensures
        final(out)@ == old(out)@ + fmt_literal(lit@),
{
    match lit {
        Literal::Null => push_str(out, "NULL"),
        Literal::Bool(b) => if *b {
            push_str(out, "TRUE")
        } else {
            push_str(out, "FALSE")
        },
        Literal::Int64(i) => push_i64(out, *i),
        Literal::Float64(t) => push_str(out, t.as_str()),
        Literal::String(s) => {
            push_char(out, '\'');
            push_doubling(out, s.as_str(), '\'');
            push_char(out, '\'');
        },
    }
}

pub fn format_literal(lit: &Literal) -> (res: String)
    ensures
        res@ == fmt_literal(lit@),
{
    let mut out = String::new();
    push_literal(&mut out, lit);
    out
}

fn push_and(out: &mut String, es: &Vec<Expr>, qualify: bool)
    ensures
        final(out)@ == old(out)@ + fmt_join(exprs_view(es@), qualify, " AND "@),
    decreases es,
{
    let ghost ev = exprs_view(es@);
    let ghost start = out@;
    let mut i: usize = 0;
    while i < es.len()
        invariant
            ev == exprs_view(es@),
            i <= es.len(),
            out@ == start + fmt_join(ev.take(i as int), qualify, " AND "@),
        decreases es.len() - i,
    {
        proof {
            assert(decreases_to!(*es => es@));
            assert(decreases_to!(es@ => es@[i as int]));
            assert(ev.take(i + 1).drop_last() == ev.take(i as int));
            assert(ev[i as int] == es@[i as int]@);
        }
        if i > 0 {
            push_str(out, " AND ");
        }
        push_expr(out, &es[i], qualify);
        i = i + 1;
    }
    proof {
        assert(ev.take(es.len() as int) == ev);
    }
}

fn push_literals(out: &mut String, values: &Vec<Literal>)
    ensures
        final(out)@ == old(out)@ + fmt_literals(literals_view(values@)),
{
    let ghost lv = literals_view(values@);
    let ghost start = out@;
    let mut i: usize = 0;
    while i < values.len()
        invariant
            lv == literals_view(values@),
            i <= values.len(),
            out@ == start + fmt_literals(lv.take(i as int)),
        decreases values.len() - i,
    {
        proof {
            assert(lv.take(i + 1).drop_last() == lv.take(i as int));
            assert(lv[i as int] == values@[i as int]@);
        }
        if i > 0 {
            push_str(out, ", ");
        }
        push_literal(out, &values[i]);
        i = i + 1;
    }
    proof {
        assert(lv.take(values.len() as int) == lv);
    }
}

fn push_branches(out: &mut String, when_then: &Vec<(Expr, Expr)>, qualify: bool)
    ensures
        final(out)@ == old(out)@ + fmt_branches(pairs_view(when_then@), qualify),
    decreases when_then,
{
    let ghost pv = pairs_view(when_then@);
    let ghost start = out@;
    let mut i: usize = 0;
    while i < when_then.len()
        invariant
            pv == pairs_view(when_then@),
            i <= when_then.len(),
            out@ == start + fmt_branches(pv.take(i as int), qualify),
        decreases when_then.len() - i,
    {
        proof {
            assert(decreases_to!(*when_then => when_then@));
            assert(decreases_to!(when_then@ => when_then@[i as int]));
            assert(decreases_to!(when_then@[i as int] => when_then@[i as int].0));
            assert(decreases_to!(when_then@[i as int] => when_then@[i as int].1));
            assert(pv.take(i + 1).drop_last() == pv.take(i as int));
            assert(pv[i as int] == (when_then@[i as int].0@, when_then@[i as int].1@));
        }
        if i > 0 {
            push_str(out, " ");
        }
        push_str(out, "WHEN ");
        push_expr(out, &when_then[i].0, qualify);
        push_str(out, " THEN ");
        push_expr(out, &when_then[i].1, qualify);
        i = i + 1;
    }
    proof {
        assert(pv.take(when_then.len() as int) == pv);
    }
}

fn push_agg_name(out: &mut String, func: AggFunc)
    ensures
        final(out)@ == old(out)@ + agg_name(func),
{
    match func {
        AggFunc::Count => push_str(out, "COUNT"),
        AggFunc::Sum => push_str(out, "SUM"),
        AggFunc::Avg => push_str(out, "AVG"),
        AggFunc::Min => push_str(out, "MIN"),
        AggFunc::Max => push_str(out, "MAX"),
    }
}

/// Appends `expr` as SQL.
pub fn push_expr(out: &mut String, expr: &Expr, qualify: bool)
    ensures
        final(out)@ == old(out)@ + fmt_expr(expr@, qualify),
    decreases expr,
{
    match expr {
        Expr::Column(c) => push_column(out, c.dataset.as_str(), c.sql.as_str(), qualify),
        Expr::Literal(l) => push_literal(out, l),
        Expr::Eq(l, r) => {
            push_expr(out, l, qualify);
            push_str(out, " = ");
            push_expr(out, r, qualify);
        },
        Expr::Ne(l, r) => {
            push_expr(out, l, qualify);
            push_str(out, " <> ");
            push_expr(out, r, qualify);
        },
        Expr::And(es) => push_and(out, es, qualify),
        Expr::In { expr: inner, values } => {
            push_expr(out, inner, qualify);
            push_str(out, " IN (");
            push_literals(out, values);
            push_str(out, ")");
        },
        Expr::Case { when_then, else_expr } => {
            push_str(out, "CASE ");
            push_branches(out, when_then, qualify);
            push_str(out, " ELSE ");
            push_expr(out, else_expr, qualify);
            push_str(out, " END");
        },
        Expr::Sub(l, r) => {
            push_str(out, "(");
            push_expr(out, l, qualify);
            push_str(out, " - ");
            push_expr(out, r, qualify);
            push_str(out, ")");
        },
        Expr::CurrentDate => push_str(out, "CURRENT_DATE"),
        Expr::Agg { func, distinct, arg } => {
            push_agg_name(out, *func);
            push_str(out, "(");
            if *distinct {
                push_str(out, "DISTINCT ");
            }
            match arg {
                None => push_str(out, "*"),
                Some(a) => push_expr(out, a, qualify),
            }
            push_str(out, ")");
        },
        Expr::Sql(s) => push_str(out, s.as_str()),
    }
}

/// `expr` as ANSI-style SQL.
pub fn format_expr(expr: &Expr, qualify: bool) -> (res: String)
    ensures
        res@ == fmt_expr(expr@, qualify),
{
    let mut out = String::new();
    push_expr(&mut out, expr, qualify);
    out
}

/// Join keys as `left = right` fragments, in order.
pub fn format_join_on(keys: &[JoinKey], qualify: bool) -> (res: Vec<String>)
    ensures
        res@.len() == keys@.len(),
        forall|i: int| 0 <= i < keys@.len() ==> #[trigger] res@[i]@ == fmt_join_key(keys@[i]@, qualify),
{
    let mut res: Vec<String> = Vec::new();
    let mut i: usize = 0;
    while i < keys.len()
        invariant
            i <= keys@.len(),
            res@.len() == i,
            forall|j: int| 0 <= j < i ==> #[trigger] res@[j]@ == fmt_join_key(keys@[j]@, qualify),
        decreases keys@.len() - i,
    {
        let k = &keys[i];
        let mut s = String::new();
        push_column(&mut s, k.left_dataset.as_str(), k.left_sql.as_str(), qualify);
        push_str(&mut s, " = ");
        push_column(&mut s, k.right_dataset.as_str(), k.right_sql.as_str(), qualify);
        res.push(s);
        i = i + 1;
    }
    res
}

/// Whether no column of an expression names a dataset.
pub open spec fn names_no_dataset(e: ExprV) -> bool
    decreases e,
{
    match e {
        ExprV::Column(c) => c.dataset.len() == 0,
        ExprV::Literal(_) => true,
        ExprV::Eq(l, r) => names_no_dataset(*l) && names_no_dataset(*r),
        ExprV::Ne(l, r) => names_no_dataset(*l) && names_no_dataset(*r),
        ExprV::And(es) => all_name_no_dataset(es),
        ExprV::In { expr, values } => names_no_dataset(*expr),
        ExprV::Case { when_then, else_expr } => branches_name_no_dataset(when_then) && names_no_dataset(*else_expr),
        ExprV::Sub(l, r) => names_no_dataset(*l) && names_no_dataset(*r),
        ExprV::CurrentDate => true,
        ExprV::Agg { func, distinct, arg } => match arg {
            None => true,
            Some(a) => names_no_dataset(*a),
        },
        ExprV::Sql(_) => true,
    }
}

pub open spec fn all_name_no_dataset(es: Seq<ExprV>) -> bool
    decreases es,
{
    if es.len() == 0 {
        true
    } else {
        all_name_no_dataset(es.drop_last()) && names_no_dataset(es.last())
    }
}

pub open spec fn branches_name_no_dataset(ps: Seq<(ExprV, ExprV)>) -> bool
    decreases ps,
{
    if ps.len() == 0 {
        true
    } else {
        branches_name_no_dataset(ps.drop_last()) && names_no_dataset(ps.last().0) && names_no_dataset(ps.last().1)
    }
}

/// Qualifying changes nothing in an expression none of whose columns names a dataset: its SQL
/// is the same with and without qualification.
pub proof fn law_unqualified_expr(e: ExprV)
    requires
        names_no_dataset(e),
    ensures
        fmt_expr(e, true) == fmt_expr(e, false),
    decreases e,
{
    match e {
        ExprV::Eq(l, r) => {
            law_unqualified_expr(*l);
            law_unqualified_expr(*r);
        },
        ExprV::Ne(l, r) => {
            law_unqualified_expr(*l);
            law_unqualified_expr(*r);
        },
        ExprV::And(es) => {
            lemma_unqualified_join(es, " AND "@);
        },
        ExprV::In { expr, values } => {
            law_unqualified_expr(*expr);
        },
        ExprV::Case { when_then, else_expr } => {
            lemma_unqualified_branches(when_then);
            law_unqualified_expr(*else_expr);
        },
        ExprV::Sub(l, r) => {
            law_unqualified_expr(*l);
            law_unqualified_expr(*r);
        },
        ExprV::Agg { func, distinct, arg } => {
            match arg {
                Some(a) => {
                    law_unqualified_expr(*a);
                },
                None => {},
            }
        },
        _ => {},
    }
}

proof fn lemma_unqualified_join(es: Seq<ExprV>, sep: Seq<char>)
    requires
        all_name_no_dataset(es),
    ensures
        fmt_join(es, true, sep) == fmt_join(es, false, sep),
    decreases es,
{
    if es.len() == 1 {
        assert(es.drop_last().len() == 0);
        law_unqualified_expr(es[0]);
    } else if es.len() > 1 {
        lemma_unqualified_join(es.drop_last(), sep);
        law_unqualified_expr(es.last());
    }
}

proof fn lemma_unqualified_branches(ps: Seq<(ExprV, ExprV)>)
    requires
        branches_name_no_dataset(ps),
    ensures
        fmt_branches(ps, true) == fmt_branches(ps, false),
    decreases ps,
{
    if ps.len() == 1 {
        assert(ps.last() == ps[0]);
        law_unqualified_expr(ps[0].0);
        law_unqualified_expr(ps[0].1);
    } else if ps.len() > 1 {
        lemma_unqualified_branches(ps.drop_last());
        law_unqualified_expr(ps.last().0);
        law_unqualified_expr(ps.last().1);
    }
}

/// An expression with the dataset of every column inside it set to empty.
pub open spec fn strip_datasets(e: ExprV) -> ExprV
    decreases e,
{
    match e {
        ExprV::Column(c) => ExprV::Column(ColumnRefV { dataset: Seq::empty(), sql: c.sql }),
        ExprV::Eq(l, r) => ExprV::Eq(Box::new(strip_datasets(*l)), Box::new(strip_datasets(*r))),
        ExprV::Ne(l, r) => ExprV::Ne(Box::new(strip_datasets(*l)), Box::new(strip_datasets(*r))),
        ExprV::And(es) => ExprV::And(strip_all(es)),
        ExprV::In { expr, values } => ExprV::In { expr: Box::new(strip_datasets(*expr)), values },
        ExprV::Case { when_then, else_expr } => ExprV::Case {
            when_then: strip_branches(when_then),
            else_expr: Box::new(strip_datasets(*else_expr)),
        },
        ExprV::Sub(l, r) => ExprV::Sub(Box::new(strip_datasets(*l)), Box::new(strip_datasets(*r))),
        ExprV::Agg { func, distinct, arg } => ExprV::Agg {
            func,
            distinct,
            arg: match arg {
                None => None,
                Some(a) => Some(Box::new(strip_datasets(*a))),
            },
        },
        _ => e,
    }
}

pub open spec fn strip_all(es: Seq<ExprV>) -> Seq<ExprV>
    decreases es,
{
    if es.len() == 0 {
        Seq::empty()
    } else {
        strip_all(es.drop_last()).push(strip_datasets(es.last()))
    }
}

pub open spec fn strip_branches(ps: Seq<(ExprV, ExprV)>) -> Seq<(ExprV, ExprV)>
    decreases ps,
{
    if ps.len() == 0 {
        Seq::empty()
    } else {
        strip_branches(ps.drop_last()).push((strip_datasets(ps.last().0), strip_datasets(ps.last().1)))
    }
}

/// Unqualified SQL ignores datasets: an expression formats without qualification as it does
/// with its columns' datasets removed, qualified or not.
pub proof fn law_unqualified_ignores_datasets(e: ExprV)
    ensures
        fmt_expr(e, false) == fmt_expr(strip_datasets(e), true),
        fmt_expr(e, false) == fmt_expr(strip_datasets(e), false),
    decreases e,
{
    match e {
        ExprV::Eq(l, r) => {
            law_unqualified_ignores_datasets(*l);
            law_unqualified_ignores_datasets(*r);
        },
        ExprV::Ne(l, r) => {
            law_unqualified_ignores_datasets(*l);
            law_unqualified_ignores_datasets(*r);
        },
        ExprV::And(es) => {
            lemma_strip_join(es, " AND "@);
        },
        ExprV::In { expr, values } => {
            law_unqualified_ignores_datasets(*expr);
        },
        ExprV::Case { when_then, else_expr } => {
            lemma_strip_branches(when_then);
            law_unqualified_ignores_datasets(*else_expr);
        },
        ExprV::Sub(l, r) => {
            law_unqualified_ignores_datasets(*l);
            law_unqualified_ignores_datasets(*r);
        },
        ExprV::Agg { func, distinct, arg } => {
            match arg {
                Some(a) => {
                    law_unqualified_ignores_datasets(*a);
                },
                None => {},
            }
        },
        _ => {},
    }
}

proof fn lemma_strip_join(es: Seq<ExprV>, sep: Seq<char>)
    ensures
        strip_all(es).len() == es.len(),
        fmt_join(es, false, sep) == fmt_join(strip_all(es), true, sep),
        fmt_join(es, false, sep) == fmt_join(strip_all(es), false, sep),
    decreases es,
{
    if es.len() > 0 {
        lemma_strip_join(es.drop_last(), sep);
        law_unqualified_ignores_datasets(es.last());
        let t = strip_all(es);
        assert(t.drop_last() == strip_all(es.drop_last()));
        assert(t.last() == strip_datasets(es.last()));
        if es.len() == 1 {
            assert(es[0] == es.last());
            assert(t[0] == t.last());
        }
    }
}

proof fn lemma_strip_branches(ps: Seq<(ExprV, ExprV)>)
    ensures
        strip_branches(ps).len() == ps.len(),
        fmt_branches(ps, false) == fmt_branches(strip_branches(ps), true),
        fmt_branches(ps, false) == fmt_branches(strip_branches(ps), false),
    decreases ps,
{
    if ps.len() > 0 {
        lemma_strip_branches(ps.drop_last());
        law_unqualified_ignores_datasets(ps.last().0);
        law_unqualified_ignores_datasets(ps.last().1);
        let t = strip_branches(ps);
        assert(t.drop_last() == strip_branches(ps.drop_last()));
        if ps.len() == 1 {
            assert(ps[0] == ps.last());
            assert(t[0] == t.last());
        }
    }
}

} // verus!
