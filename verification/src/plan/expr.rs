//! Structured expressions for logical plans.

use vstd::prelude::*;
use vstd::string::StringSliceAdditionalSpecFns;
use vstd::utf8::{decode_utf8, encode_utf8, is_char_boundary};

use crate::json::{json_to_string, spec_json_to_string, JsonV, JsonValue};
use crate::text::{
    char_index, ends_with, has_char, is_prefix, is_suffix, spec_to_uppercase, split_once_char,
    starts_with, str_eq, to_uppercase, trim, trim_start, trim_start_str, trim_str,
};

verus! {

/// Reference to a column in a logical dataset (OSI dataset name + physical SQL fragment).
#[derive(Debug, PartialEq)]
pub struct ColumnRef {
    pub dataset: String,
    pub sql: String,
}

/// Literal value in filters and expressions. A floating-point literal is held as the text that
/// `f64`'s `Display` gives for it.
#[derive(Debug, PartialEq)]
pub enum Literal {
    Null,
    Bool(bool),
    Int64(i64),
    Float64(String),
    String(String),
}

/// Aggregate function for metrics.
#[derive(Clone, Copy, Debug, PartialEq, Eq, Structural)]
pub enum AggFunc {
    Count,
    Sum,
    Avg,
    Min,
    Max,
}

/// Structured expression tree.
#[derive(Debug, PartialEq)]
pub enum Expr {
    Column(ColumnRef),
    Literal(Literal),
    Eq(Box<Expr>, Box<Expr>),
    Ne(Box<Expr>, Box<Expr>),
    And(Vec<Expr>),
    In { expr: Box<Expr>, values: Vec<Literal> },
    /// Metric / aggregate expression.
    Agg { func: AggFunc, distinct: bool, arg: Option<Box<Expr>> },
    /// `CASE WHEN` chain.
    Case { when_then: Vec<(Expr, Expr)>, else_expr: Box<Expr> },
    /// Binary subtraction, e.g. `CURRENT_DATE - employment_start_date`.
    Sub(Box<Expr>, Box<Expr>),
    /// `CURRENT_DATE`.
    CurrentDate,
    /// Opaque SQL when the planner cannot structure the expression.
    Sql(String),
}

/// Equi-join key between two datasets.
#[derive(Debug, PartialEq)]
pub struct JoinKey {
    pub left_dataset: String,
    pub left_sql: String,
    pub right_dataset: String,
    pub right_sql: String,
}

// ---------------------------------------------------------------------------------------------
// Views
pub struct ColumnRefV {
    pub dataset: Seq<char>,
    pub sql: Seq<char>,
}

pub enum LiteralV {
    Null,
    Bool(bool),
    Int64(i64),
    Float64(Seq<char>),
    String(Seq<char>),
}

pub enum ExprV {
    Column(ColumnRefV),
    Literal(LiteralV),
    Eq(Box<ExprV>, Box<ExprV>),
    Ne(Box<ExprV>, Box<ExprV>),
    And(Seq<ExprV>),
    In { expr: Box<ExprV>, values: Seq<LiteralV> },
    Agg { func: AggFunc, distinct: bool, arg: Option<Box<ExprV>> },
    Case { when_then: Seq<(ExprV, ExprV)>, else_expr: Box<ExprV> },
    Sub(Box<ExprV>, Box<ExprV>),
    CurrentDate,
    Sql(Seq<char>),
}

pub struct JoinKeyV {
    pub left_dataset: Seq<char>,
    pub left_sql: Seq<char>,
    pub right_dataset: Seq<char>,
    pub right_sql: Seq<char>,
}

impl View for ColumnRef {
    type V = ColumnRefV;

    open spec fn view(&self) -> ColumnRefV {
        ColumnRefV { dataset: self.dataset@, sql: self.sql@ }
    }
}

impl View for Literal {
    type V = LiteralV;

    open spec fn view(&self) -> LiteralV {
        match self {
            Literal::Null => LiteralV::Null,
            Literal::Bool(b) => LiteralV::Bool(*b),
            Literal::Int64(i) => LiteralV::Int64(*i),
            Literal::Float64(t) => LiteralV::Float64(t@),
            Literal::String(s) => LiteralV::String(s@),
        }
    }
}

impl View for JoinKey {
    type V = JoinKeyV;

    open spec fn view(&self) -> JoinKeyV {
        JoinKeyV {
            left_dataset: self.left_dataset@,
            left_sql: self.left_sql@,
            right_dataset: self.right_dataset@,
            right_sql: self.right_sql@,
        }
    }
}

pub open spec fn literals_view(s: Seq<Literal>) -> Seq<LiteralV> {
    Seq::new(s.len(), |i: int| s[i]@)
}

pub open spec fn exprs_view(s: Seq<Expr>) -> Seq<ExprV>
    decreases s,
{
    Seq::new(s.len(), |i: int| if 0 <= i < s.len() { expr_view(s[i]) } else { ExprV::CurrentDate })
}

pub open spec fn pairs_view(s: Seq<(Expr, Expr)>) -> Seq<(ExprV, ExprV)>
    decreases s,
{
    Seq::new(
        s.len(),
        |i: int|
            if 0 <= i < s.len() {
                (expr_view(s[i].0), expr_view(s[i].1))
            } else {
                (ExprV::CurrentDate, ExprV::CurrentDate)
            },
    )
}

pub open spec fn expr_view(e: Expr) -> ExprV
    decreases e,
{
    match e {
        Expr::Column(c) => ExprV::Column(c@),
        Expr::Literal(l) => ExprV::Literal(l@),
        Expr::Eq(l, r) => ExprV::Eq(Box::new(expr_view(*l)), Box::new(expr_view(*r))),
        Expr::Ne(l, r) => ExprV::Ne(Box::new(expr_view(*l)), Box::new(expr_view(*r))),
        Expr::And(v) => ExprV::And(exprs_view(v@)),
        Expr::In { expr, values } => ExprV::In {
            expr: Box::new(expr_view(*expr)),
            values: literals_view(values@),
        },
        Expr::Agg { func, distinct, arg } => ExprV::Agg {
            func,
            distinct,
            arg: match arg {
                Some(a) => Some(Box::new(expr_view(*a))),
                None => None,
            },
        },
        Expr::Case { when_then, else_expr } => ExprV::Case {
            when_then: pairs_view(when_then@),
            else_expr: Box::new(expr_view(*else_expr)),
        },
        Expr::Sub(l, r) => ExprV::Sub(Box::new(expr_view(*l)), Box::new(expr_view(*r))),
        Expr::CurrentDate => ExprV::CurrentDate,
        Expr::Sql(s) => ExprV::Sql(s@),
    }
}

impl View for Expr {
    type V = ExprV;

    open spec fn view(&self) -> ExprV {
        expr_view(*self)
    }
}

/// A column expression.
pub open spec fn col_v(dataset: Seq<char>, sql: Seq<char>) -> ExprV {
    ExprV::Column(ColumnRefV { dataset, sql })
}

// ---------------------------------------------------------------------------------------------
impl JoinKey {
    /// A copy of the key.
    pub fn copy(&self) -> (res: JoinKey)
        ensures
            res@ == self@,
    {
        JoinKey {
            left_dataset: self.left_dataset.clone(),
            left_sql: self.left_sql.clone(),
            right_dataset: self.right_dataset.clone(),
            right_sql: self.right_sql.clone(),
        }
    }
}

impl ColumnRef {
    pub fn new(dataset: String, sql: String) -> (res: Self)
        ensures
            res.dataset == dataset,
            res.sql == sql,
    {
        ColumnRef { dataset, sql }
    }
}

/// The literal a JSON value reads as: integers that fit `i64` as `Int64`, other numbers as
/// `Float64`, strings as they are, anything else as its JSON text.
pub open spec fn spec_literal_from_json(v: JsonV) -> LiteralV {
    match v {
        JsonV::Null => LiteralV::Null,
        JsonV::Bool(b) => LiteralV::Bool(b),
        JsonV::Number(n) => match n.as_i64 {
            Some(i) => LiteralV::Int64(i),
            None => LiteralV::Float64(n.f64_text),
        },
        JsonV::String(s) => LiteralV::String(s),
        _ => LiteralV::String(spec_json_to_string(v)),
    }
}

/// The literals that JSON values read as.
pub open spec fn literals_of(items: Seq<JsonV>) -> Seq<LiteralV> {
    Seq::new(items.len(), |i: int| spec_literal_from_json(items[i]))
}

impl Literal {
    pub fn from_json(v: &JsonValue) -> (res: Literal)
        ensures
            res@ == spec_literal_from_json(v@),
    {
        match v {
            JsonValue::Null => Literal::Null,
            JsonValue::Bool(b) => Literal::Bool(*b),
            JsonValue::Number(n) => match n.as_i64 {
                Some(i) => Literal::Int64(i),
                None => Literal::Float64(n.f64_text.clone()),
            },
            JsonValue::String(s) => Literal::String(s.clone()),
            _ => Literal::String(json_to_string(v)),
        }
    }
}

/// `exprs` combined with AND: `true` for none, the expression itself for one.
pub open spec fn spec_and(exprs: Seq<ExprV>) -> ExprV {
    if exprs.len() == 0 {
        ExprV::Literal(LiteralV::Bool(true))
    } else if exprs.len() == 1 {
        exprs[0]
    } else {
        ExprV::And(exprs)
    }
}

impl Expr {
    pub fn column(dataset: String, sql: String) -> (res: Self)
        ensures
            res@ == col_v(dataset@, sql@),
    {
        Expr::Column(ColumnRef::new(dataset, sql))
    }

    pub fn and(exprs: Vec<Expr>) -> (res: Self)
        ensures
            res@ == spec_and(exprs_view(exprs@)),
    {
        let mut exprs = exprs;
        if exprs.len() == 0 {
            Expr::Literal(Literal::Bool(true))
        } else if exprs.len() == 1 {
            let ghost v = exprs@;
            let e = exprs.pop().unwrap();
            proof {
                assert(exprs_view(v)[0] == expr_view(v[0]));
            }
            e
        } else {
            Expr::And(exprs)
        }
    }
}

/// A column reference parsed from SQL text: `dataset.column` splits at the first `.` when both
/// sides are non-empty, otherwise the whole text is an unqualified column; text that is empty or
/// holds a space or `(` is not a column.
pub open spec fn spec_parse_column(sql: Seq<char>) -> Option<ExprV> {
    let s = trim(sql);
    if s.len() == 0 || has_char(s, ' ') || has_char(s, '(') {
        None
    } else {
        let i = char_index(s, '.');
        if i >= 0 && i > 0 && i + 1 < s.len() {
            Some(col_v(s.subrange(0, i), s.subrange(i + 1, s.len() as int)))
        } else {
            Some(col_v(Seq::empty(), s))
        }
    }
}

/// Parse `dataset.column` or bare `column` into a column reference.
pub fn parse_column_sql(sql: &str) -> (res: Option<Expr>)
    ensures
        match spec_parse_column(sql@) {
            None => res is None,
            Some(e) => res matches Some(r) && r@ == e,
        },
{
    let s = trim_str(sql);
    if s.unicode_len() == 0 || crate::text::contains_char(s, ' ') || crate::text::contains_char(s, '(') {
        return None;
    }
    proof {
        crate::seqs::lemma_first_match(s@, crate::text::is_char('.'));
    }
    if let Some((ds, col)) = split_once_char(s, '.') {
        if ds.unicode_len() > 0 && col.unicode_len() > 0 {
            return Some(Expr::column(String::from_str(ds), String::from_str(col)));
        }
    }
    Some(Expr::column(String::new(), String::from_str(s)))
}

/// The recognized aggregate call prefixes, in the order they are tried.
pub open spec fn agg_prefix(k: int) -> Seq<char> {
    if k == 0 {
        "COUNT("@
    } else if k == 1 {
        "SUM("@
    } else if k == 2 {
        "AVG("@
    } else if k == 3 {
        "MIN("@
    } else {
        "MAX("@
    }
}

pub open spec fn agg_of(k: int) -> AggFunc {
    if k == 0 {
        AggFunc::Count
    } else if k == 1 {
        AggFunc::Sum
    } else if k == 2 {
        AggFunc::Avg
    } else if k == 3 {
        AggFunc::Min
    } else {
        AggFunc::Max
    }
}

/// Whether `s` is `prefix` + inner + `)`.
pub open spec fn is_call(s: Seq<char>, prefix: Seq<char>) -> bool {
    is_prefix(prefix, s) && is_suffix(")"@, s.skip(prefix.len() as int))
}

/// The inner text of a call `prefix(inner)`.
pub open spec fn call_inner(s: Seq<char>, prefix: Seq<char>) -> Seq<char> {
    s.subrange(prefix.len() as int, s.len() - 1)
}

/// The text after the first `n` bytes of `s`.
pub open spec fn after_bytes(s: Seq<char>, n: int) -> Seq<char> {
    decode_utf8(encode_utf8(s).subrange(n, encode_utf8(s).len() as int))
}

/// The aggregate for a call `f(inner)` in `s`: `DISTINCT` (tested on the upper-cased, trimmed
/// inner text) is dropped by its eight bytes; `*` gives no argument, a column gives that column,
/// anything else keeps the whole text as SQL.
pub open spec fn spec_agg_call(s: Seq<char>, f: AggFunc, inner: Seq<char>) -> ExprV {
    let distinct = is_prefix("DISTINCT "@, spec_to_uppercase(trim_start(inner)));
    if distinct && !is_char_boundary(encode_utf8(trim(inner)), 8) {
        ExprV::Sql(s)
    } else {
        let arg_text = if distinct {
            trim_start(after_bytes(trim(inner), 8))
        } else {
            trim(inner)
        };
        if arg_text == "*"@ {
            ExprV::Agg { func: f, distinct, arg: None }
        } else {
            match spec_parse_column(arg_text) {
                Some(c) => ExprV::Agg { func: f, distinct, arg: Some(Box::new(c)) },
                None => ExprV::Sql(s),
            }
        }
    }
}

/// Tries the aggregate prefixes from the `k`-th on.
pub open spec fn spec_metric_from(s: Seq<char>, k: int) -> ExprV
    decreases 5 - k,
{
    if k >= 5 || k < 0 {
        ExprV::Sql(s)
    } else if is_call(s, agg_prefix(k)) {
        spec_agg_call(s, agg_of(k), call_inner(s, agg_prefix(k)))
    } else {
        spec_metric_from(s, k + 1)
    }
}

/// Common metric SQL as a structured aggregate: `COUNT(*)` / `COUNT(1)` (in any case), or
/// `COUNT(`, `SUM(`, `AVG(`, `MIN(`, `MAX(` calls; otherwise the trimmed text as SQL.
pub open spec fn spec_parse_metric(sql: Seq<char>) -> ExprV {
    let s = trim(sql);
    let up = spec_to_uppercase(s);
    if up == "COUNT(*)"@ || up == "COUNT(1)"@ {
        ExprV::Agg { func: AggFunc::Count, distinct: false, arg: None }
    } else {
        spec_metric_from(s, 0)
    }
}

fn agg_call(s: &str, func: AggFunc, inner: &str) -> (res: Expr)
    ensures
        res@ == spec_agg_call(s@, func, inner@),
{
    let upper = to_uppercase(trim_start_str(inner));
    let distinct = starts_with(upper.as_str(), "DISTINCT ");
    let trimmed = trim_str(inner);
    let arg_text: &str = if distinct {
        if !trimmed.is_char_boundary(8) {
            return Expr::Sql(String::from_str(s));
        }
        let (_, rest) = trimmed.split_at(8);
        proof {
            vstd::utf8::encode_utf8_decode_utf8(rest@);
            assert(rest.spec_bytes() == encode_utf8(rest@));
            assert(rest@ == after_bytes(trimmed@, 8));
        }
        trim_start_str(rest)
    } else {
        trimmed
    };
    if str_eq(arg_text, "*") {
        return Expr::Agg { func, distinct, arg: None };
    }
    match parse_column_sql(arg_text) {
        Some(arg) => Expr::Agg { func, distinct, arg: Some(Box::new(arg)) },
        None => Expr::Sql(String::from_str(s)),
    }
}

/// Parse common metric SQL into a structured [`Expr::Agg`], or an [`Expr::Sql`] fallback.
pub fn parse_metric_sql(sql: &str) -> (res: Expr)
    ensures
        res@ == spec_parse_metric(sql@),
{
    let s = trim_str(sql);
    let upper = to_uppercase(s);
    if str_eq(upper.as_str(), "COUNT(*)") || str_eq(upper.as_str(), "COUNT(1)") {
        return Expr::Agg { func: AggFunc::Count, distinct: false, arg: None };
    }
    let prefixes: [&str; 5] = ["COUNT(", "SUM(", "AVG(", "MIN(", "MAX("];
    let funcs: [AggFunc; 5] = [AggFunc::Count, AggFunc::Sum, AggFunc::Avg, AggFunc::Min, AggFunc::Max];
    let mut k: usize = 0;
    while k < 5
        invariant
            k <= 5,
            prefixes@ == seq!["COUNT(", "SUM(", "AVG(", "MIN(", "MAX("],
            funcs@ == seq![AggFunc::Count, AggFunc::Sum, AggFunc::Avg, AggFunc::Min, AggFunc::Max],
            spec_metric_from(s@, 0) == spec_metric_from(s@, k as int),
            spec_parse_metric(sql@) == spec_metric_from(s@, 0),
        decreases 5 - k,
    {
        let prefix = prefixes[k];
        assert(prefix@ == agg_prefix(k as int));
        assert(funcs[k as int] == agg_of(k as int));
        if starts_with(s, prefix) {
            let n = s.unicode_len();
            let m = prefix.unicode_len();
            let rest = s.substring_char(m, n);
            assert(rest@ == s@.skip(m as int));
            if ends_with(rest, ")") {
                proof {
                    reveal_strlit(")");
                    assert(is_call(s@, agg_prefix(k as int)));
                }
                let inner = s.substring_char(m, n - 1);
                proof {
                    assert(inner@ == call_inner(s@, agg_prefix(k as int)));
                    assert(spec_metric_from(s@, k as int) == spec_agg_call(s@, agg_of(k as int), inner@));
                }
                return agg_call(s, funcs[k], inner);
            }
        }
        k = k + 1;
    }
    Expr::Sql(String::from_str(s))
}

} // verus!
