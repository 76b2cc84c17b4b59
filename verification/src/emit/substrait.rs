//! Substrait plans built from a structured logical plan: relations (read, join, filter,
//! aggregate) and expressions over field positions, with the function anchors of the plan's
//! extension declarations. The protobuf encoding is done by the caller.

use vstd::prelude::*;

use super::error::{EmitError, EmitErrorV};
use crate::plan::expr::{AggFunc, ColumnRef, Expr, ExprV, JoinKey, JoinKeyV, Literal, LiteralV};
use crate::plan::{join_keys_view, LogicalPlan, NamedAggregate, NamedAggregateV, PlanV};
use crate::seqs::{all_ok, first_match, is_err, lemma_first_match_at, lemma_first_match_none};
use crate::text::{char_index, is_char, push_char, push_str, split_once_char, str_eq, strings_view};

verus! {

pub const URI_AGGREGATE: u32 = 1;
pub const URI_COMPARISON: u32 = 2;
pub const URI_BOOLEAN: u32 = 3;
pub const URI_ARITHMETIC: u32 = 4;
pub const URI_DATETIME: u32 = 5;

pub const FUNC_SUM: u32 = 1;
pub const FUNC_AVG: u32 = 2;
pub const FUNC_COUNT: u32 = 3;
pub const FUNC_MIN: u32 = 5;
pub const FUNC_MAX: u32 = 6;
pub const FUNC_EQUAL: u32 = 100;
pub const FUNC_NOT_EQUAL: u32 = 101;
pub const FUNC_AND: u32 = 200;
pub const FUNC_OR: u32 = 201;
pub const FUNC_SUBTRACT: u32 = 300;
pub const FUNC_CURRENT_DATE: u32 = 400;

/// A literal value. `Null` is a null string; `Fp64` holds the text that `f64`'s `Display` gives.
#[derive(Debug)]
pub enum SubstraitLiteral {
    Null,
    Bool(bool),
    I64(i64),
    Fp64(String),
    String(String),
}

/// An expression over the fields of the input relation.
#[derive(Debug)]
pub enum SubstraitExpr {
    /// The field at this position of the input schema.
    Field(u32),
    Literal { nullable: bool, value: SubstraitLiteral },
    /// A call of the function with this anchor.
    Call { function: u32, args: Vec<SubstraitExpr> },
    IfThen { ifs: Vec<(SubstraitExpr, SubstraitExpr)>, else_expr: Option<Box<SubstraitExpr>> },
}

/// An aggregate measure: the function with this anchor over one argument.
#[derive(Debug)]
pub struct SubstraitMeasure {
    pub function: u32,
    pub distinct: bool,
    pub arg: SubstraitExpr,
}

/// A relation.
#[derive(Debug)]
pub enum SubstraitRel {
    /// A named table (the dotted parts of its name) read with these string columns.
    Read { table: Vec<String>, columns: Vec<String> },
    /// An inner join.
    Join { left: Box<SubstraitRel>, right: Box<SubstraitRel>, condition: SubstraitExpr },
    Filter { input: Box<SubstraitRel>, condition: SubstraitExpr },
    /// An aggregation: its grouping expressions, its grouping sets (each the positions of the
    /// grouping expressions it groups by), and its measures.
    Aggregate {
        input: Box<SubstraitRel>,
        grouping_expressions: Vec<SubstraitExpr>,
        groupings: Vec<Vec<u32>>,
        measures: Vec<SubstraitMeasure>,
    },
}

/// A plan: its version, extension URIs (anchor, URI), function declarations (URI anchor,
/// function anchor, name), and its root relation with the output names.
#[derive(Debug)]
pub struct SubstraitPlan {
    pub version: (u32, u32, u32),
    pub extension_uris: Vec<(u32, String)>,
    pub extensions: Vec<(u32, u32, String)>,
    pub root: SubstraitRel,
    pub names: Vec<String>,
}

// ---------------------------------------------------------------------------------------------
// Views
pub enum SLitV {
    Null,
    Bool(bool),
    I64(i64),
    Fp64(Seq<char>),
    String(Seq<char>),
}

pub enum SExprV {
    Field(u32),
    Literal { nullable: bool, value: SLitV },
    Call { function: u32, args: Seq<SExprV> },
    IfThen { ifs: Seq<(SExprV, SExprV)>, else_expr: Option<Box<SExprV>> },
}

pub struct SMeasureV {
    pub function: u32,
    pub distinct: bool,
    pub arg: SExprV,
}

pub enum SRelV {
    Read { table: Seq<Seq<char>>, columns: Seq<Seq<char>> },
    Join { left: Box<SRelV>, right: Box<SRelV>, condition: SExprV },
    Filter { input: Box<SRelV>, condition: SExprV },
    Aggregate {
        input: Box<SRelV>,
        grouping_expressions: Seq<SExprV>,
        groupings: Seq<Seq<u32>>,
        measures: Seq<SMeasureV>,
    },
}

pub struct SPlanV {
    pub version: (u32, u32, u32),
    pub extension_uris: Seq<(u32, Seq<char>)>,
    pub extensions: Seq<(u32, u32, Seq<char>)>,
    pub root: SRelV,
    pub names: Seq<Seq<char>>,
}

impl View for SubstraitLiteral {
    type V = SLitV;

    open spec fn view(&self) -> SLitV {
        match self {
            SubstraitLiteral::Null => SLitV::Null,
            SubstraitLiteral::Bool(b) => SLitV::Bool(*b),
            SubstraitLiteral::I64(i) => SLitV::I64(*i),
            SubstraitLiteral::Fp64(t) => SLitV::Fp64(t@),
            SubstraitLiteral::String(s) => SLitV::String(s@),
        }
    }
}

pub open spec fn sexprs_view(s: Seq<SubstraitExpr>) -> Seq<SExprV>
    decreases s,
{
    Seq::new(s.len(), |i: int| if 0 <= i < s.len() { sexpr_view(s[i]) } else { SExprV::Field(0) })
}

pub open spec fn sifs_view(s: Seq<(SubstraitExpr, SubstraitExpr)>) -> Seq<(SExprV, SExprV)>
    decreases s,
{
    Seq::new(
        s.len(),
        |i: int|
            if 0 <= i < s.len() {
                (sexpr_view(s[i].0), sexpr_view(s[i].1))
            } else {
                (SExprV::Field(0), SExprV::Field(0))
            },
    )
}

pub open spec fn sexpr_view(e: SubstraitExpr) -> SExprV
    decreases e,
{
    match e {
        SubstraitExpr::Field(i) => SExprV::Field(i),
        SubstraitExpr::Literal { nullable, value } => SExprV::Literal { nullable, value: value@ },
        SubstraitExpr::Call { function, args } => SExprV::Call { function, args: sexprs_view(args@) },
        SubstraitExpr::IfThen { ifs, else_expr } => SExprV::IfThen {
            ifs: sifs_view(ifs@),
            else_expr: match else_expr {
                Some(x) => Some(Box::new(sexpr_view(*x))),
                None => None,
            },
        },
    }
}

impl View for SubstraitExpr {
    type V = SExprV;

    open spec fn view(&self) -> SExprV {
        sexpr_view(*self)
    }
}

impl View for SubstraitMeasure {
    type V = SMeasureV;

    open spec fn view(&self) -> SMeasureV {
        SMeasureV { function: self.function, distinct: self.distinct, arg: self.arg@ }
    }
}

pub open spec fn measures_view(s: Seq<SubstraitMeasure>) -> Seq<SMeasureV> {
    Seq::new(s.len(), |i: int| s[i]@)
}

pub open spec fn srel_view(r: SubstraitRel) -> SRelV
    decreases r,
{
    match r {
        SubstraitRel::Read { table, columns } => SRelV::Read {
            table: strings_view(table@),
            columns: strings_view(columns@),
        },
        SubstraitRel::Join { left, right, condition } => SRelV::Join {
            left: Box::new(srel_view(*left)),
            right: Box::new(srel_view(*right)),
            condition: condition@,
        },
        SubstraitRel::Filter { input, condition } => SRelV::Filter {
            input: Box::new(srel_view(*input)),
            condition: condition@,
        },
        SubstraitRel::Aggregate { input, grouping_expressions, groupings, measures } => SRelV::Aggregate {
            input: Box::new(srel_view(*input)),
            grouping_expressions: sexprs_view(grouping_expressions@),
            groupings: Seq::new(groupings@.len(), |i: int| groupings@[i]@),
            measures: measures_view(measures@),
        },
    }
}

impl View for SubstraitRel {
    type V = SRelV;

    open spec fn view(&self) -> SRelV {
        srel_view(*self)
    }
}

impl View for SubstraitPlan {
    type V = SPlanV;

    open spec fn view(&self) -> SPlanV {
        SPlanV {
            version: self.version,
            extension_uris: Seq::new(
                self.extension_uris@.len(),
                |i: int| (self.extension_uris@[i].0, self.extension_uris@[i].1@),
            ),
            extensions: Seq::new(
                self.extensions@.len(),
                |i: int| (self.extensions@[i].0, self.extensions@[i].1, self.extensions@[i].2@),
            ),
            root: self.root@,
            names: strings_view(self.names@),
        }
    }
}

// ---------------------------------------------------------------------------------------------
// Schema context

/// The columns of the relation built so far: each with its dataset and its SQL name.
pub struct SchemaContext {
    pub columns: Vec<(String, String)>,
}

/// The view of schema columns.
pub open spec fn cols_view(c: Seq<(String, String)>) -> Seq<(Seq<char>, Seq<char>)> {
    Seq::new(c.len(), |i: int| (c[i].0@, c[i].1@))
}

/// The predicate "has SQL name `sql`".
pub open spec fn sql_is(sql: Seq<char>) -> spec_fn((Seq<char>, Seq<char>)) -> bool {
    |c: (Seq<char>, Seq<char>)| c.1 == sql
}

/// The predicate "is column `sql` of `dataset`".
pub open spec fn col_is(dataset: Seq<char>, sql: Seq<char>) -> spec_fn((Seq<char>, Seq<char>)) -> bool {
    |c: (Seq<char>, Seq<char>)| c.0 == dataset && c.1 == sql
}

/// The position of a column: the first of that SQL name when no dataset is given, else the first
/// of that dataset and SQL name; -1 when there is none.
pub open spec fn find_col(cols: Seq<(Seq<char>, Seq<char>)>, dataset: Seq<char>, sql: Seq<char>) -> int {
    if dataset.len() == 0 {
        first_match(cols, sql_is(sql))
    } else {
        first_match(cols, col_is(dataset, sql))
    }
}

/// The columns a scan of `dataset` adds.
pub open spec fn scan_cols(dataset: Seq<char>, columns: Seq<Seq<char>>) -> Seq<(Seq<char>, Seq<char>)> {
    Seq::new(columns.len(), |i: int| (dataset, columns[i]))
}

impl SchemaContext {
    pub open spec fn cols(&self) -> Seq<(Seq<char>, Seq<char>)> {
        cols_view(self.columns@)
    }

    pub fn new() -> (res: Self)
        ensures
            res.cols() == Seq::<(Seq<char>, Seq<char>)>::empty(),
    {
        SchemaContext { columns: Vec::new() }
    }

    /// Adds the columns of a scan of `alias`.
    pub fn add_scan(&mut self, alias: &str, columns: &Vec<String>)
        ensures
            final(self).cols() == old(self).cols() + scan_cols(alias@, strings_view(columns@)),
    {
        let ghost start = self.cols();
        let mut i: usize = 0;
        while i < columns.len()
            invariant
                i <= columns@.len(),
                self.cols() == start + scan_cols(alias@, strings_view(columns@)).take(i as int),
            decreases columns@.len() - i,
        {
            let ghost before = self.cols();
            self.columns.push((String::from_str(alias), columns[i].clone()));
            proof {
                assert(self.cols() =~= before.push((alias@, columns@[i as int]@)));
                assert(scan_cols(alias@, strings_view(columns@)).take(i + 1) =~= scan_cols(
                    alias@,
                    strings_view(columns@),
                ).take(i as int).push((alias@, columns@[i as int]@)));
            }
            i = i + 1;
        }
        proof {
            assert(scan_cols(alias@, strings_view(columns@)).take(columns@.len() as int) =~= scan_cols(
                alias@,
                strings_view(columns@),
            ));
        }
    }

    /// Appends the columns of `other`.
    pub fn merge(&mut self, other: SchemaContext)
        ensures
            final(self).cols() == old(self).cols() + other.cols(),
    {
        let ghost start = self.cols();
        let ghost oc = other.cols();
        let mut i: usize = 0;
        while i < other.columns.len()
            invariant
                i <= other.columns@.len(),
                oc == other.cols(),
                self.cols() == start + oc.take(i as int),
            decreases other.columns@.len() - i,
        {
            let ghost before = self.cols();
            self.columns.push((other.columns[i].0.clone(), other.columns[i].1.clone()));
            proof {
                assert(self.cols() =~= before.push(oc[i as int]));
                assert(oc.take(i + 1) =~= oc.take(i as int).push(oc[i as int]));
            }
            i = i + 1;
        }
        proof {
            assert(oc.take(oc.len() as int) =~= oc);
        }
    }

    /// The position of a column (see [`find_col`]).
    pub fn find_column(&self, dataset: &str, sql: &str) -> (res: Option<usize>)
        ensures
            match res {
                Some(i) => i == find_col(self.cols(), dataset@, sql@),
                None => find_col(self.cols(), dataset@, sql@) < 0,
            },
    {
        let ghost cs = self.cols();
        let ghost p = if dataset@.len() == 0 {
            sql_is(sql@)
        } else {
            col_is(dataset@, sql@)
        };
        let any = dataset.unicode_len() == 0;
        let mut i: usize = 0;
        while i < self.columns.len()
            invariant
                cs == self.cols(),
                any == (dataset@.len() == 0),
                p == if dataset@.len() == 0 {
                    sql_is(sql@)
                } else {
                    col_is(dataset@, sql@)
                },
                i <= self.columns@.len(),
                forall|j: int| 0 <= j < i ==> !p(#[trigger] cs[j]),
            decreases self.columns@.len() - i,
        {
            let hit = str_eq(self.columns[i].1.as_str(), sql) && (any || str_eq(
                self.columns[i].0.as_str(),
                dataset,
            ));
            assert(cs[i as int] == (self.columns@[i as int].0@, self.columns@[i as int].1@));
            if hit {
                proof {
                    lemma_first_match_at(cs, p, i as int);
                }
                return Some(i);
            }
            i = i + 1;
        }
        proof {
            lemma_first_match_none(cs, p);
        }
        None
    }

    pub fn len(&self) -> (res: usize)
        ensures
            res == self.cols().len(),
    {
        self.columns.len()
    }
}

// ---------------------------------------------------------------------------------------------
// Expressions

/// The Substrait literal of a plan literal.
pub open spec fn lit_v(l: LiteralV) -> SLitV {
    match l {
        LiteralV::Null => SLitV::Null,
        LiteralV::Bool(b) => SLitV::Bool(b),
        LiteralV::Int64(i) => SLitV::I64(i),
        LiteralV::Float64(t) => SLitV::Fp64(t),
        LiteralV::String(s) => SLitV::String(s),
    }
}

/// A nullable literal expression.
pub open spec fn slit(l: LiteralV) -> SExprV {
    SExprV::Literal { nullable: true, value: lit_v(l) }
}

/// A call of `f` on two arguments.
pub open spec fn call2(f: u32, a: SExprV, b: SExprV) -> SExprV {
    SExprV::Call { function: f, args: seq![a, b] }
}

/// `es` (at least one) combined left to right by calls of `f`.
pub open spec fn fold_calls(f: u32, es: Seq<SExprV>) -> SExprV
    decreases es.len(),
{
    if es.len() <= 1 {
        es[0]
    } else {
        call2(f, fold_calls(f, es.drop_last()), es.last())
    }
}

/// The comparisons of `x` with each value.
pub open spec fn in_terms(x: SExprV, values: Seq<LiteralV>) -> Seq<SExprV> {
    Seq::new(values.len(), |i: int| call2(FUNC_EQUAL, x, slit(values[i])))
}

/// Each expression emitted on its own.
pub open spec fn spec_emit_all(es: Seq<ExprV>, cols: Seq<(Seq<char>, Seq<char>)>) -> Seq<Result<SExprV, EmitErrorV>>
    decreases es,
{
    Seq::new(
        es.len(),
        |i: int|
            if 0 <= i < es.len() {
                spec_emit_expr(es[i], cols)
            } else {
                Err(EmitErrorV::Unsupported(Seq::empty()))
            },
    )
}

/// Each `CASE` branch emitted on its own (condition, then result).
pub open spec fn spec_emit_branches(ps: Seq<(ExprV, ExprV)>, cols: Seq<(Seq<char>, Seq<char>)>) -> Seq<
    Result<(SExprV, SExprV), EmitErrorV>,
>
    decreases ps,
{
    Seq::new(
        ps.len(),
        |i: int|
            if 0 <= i < ps.len() {
                match spec_emit_expr(ps[i].0, cols) {
                    Err(e) => Err(e),
                    Ok(a) => match spec_emit_expr(ps[i].1, cols) {
                        Err(e) => Err(e),
                        Ok(b) => Ok((a, b)),
                    },
                }
            } else {
                Err(EmitErrorV::Unsupported(Seq::empty()))
            },
    )
}

/// An expression over the schema `cols`: columns become field positions; `=`, `<>`, `-` and
/// `CURRENT_DATE` become calls; AND-lists and IN-lists become chains of `and` / `or` calls
/// (`true` / `false` when empty); `CASE` becomes if-then. Aggregates and opaque SQL are refused.
pub open spec fn spec_emit_expr(e: ExprV, cols: Seq<(Seq<char>, Seq<char>)>) -> Result<SExprV, EmitErrorV>
    decreases e,
{
    match e {
        ExprV::Column(c) => {
            let i = find_col(cols, c.dataset, c.sql);
            if i < 0 {
                Err(EmitErrorV::ColumnNotFound(c.dataset + "."@ + c.sql))
            } else {
                Ok(SExprV::Field(i as u32))
            }
        },
        ExprV::Literal(l) => Ok(slit(l)),
        ExprV::Eq(l, r) => match spec_emit_expr(*l, cols) {
            Err(x) => Err(x),
            Ok(a) => match spec_emit_expr(*r, cols) {
                Err(x) => Err(x),
                Ok(b) => Ok(call2(FUNC_EQUAL, a, b)),
            },
        },
        ExprV::Ne(l, r) => match spec_emit_expr(*l, cols) {
            Err(x) => Err(x),
            Ok(a) => match spec_emit_expr(*r, cols) {
                Err(x) => Err(x),
                Ok(b) => Ok(call2(FUNC_NOT_EQUAL, a, b)),
            },
        },
        ExprV::And(es) => if es.len() == 0 {
            Ok(slit(LiteralV::Bool(true)))
        } else {
            match all_ok(spec_emit_all(es, cols)) {
                Err(x) => Err(x),
                Ok(rs) => Ok(fold_calls(FUNC_AND, rs)),
            }
        },
        ExprV::In { expr, values } => if values.len() == 0 {
            Ok(slit(LiteralV::Bool(false)))
        } else {
            match spec_emit_expr(*expr, cols) {
                Err(x) => Err(x),
                Ok(a) => Ok(fold_calls(FUNC_OR, in_terms(a, values))),
            }
        },
        ExprV::Case { when_then, else_expr } => match all_ok(spec_emit_branches(when_then, cols)) {
            Err(x) => Err(x),
            Ok(ifs) => match spec_emit_expr(*else_expr, cols) {
                Err(x) => Err(x),
                Ok(b) => Ok(SExprV::IfThen { ifs, else_expr: Some(Box::new(b)) }),
            },
        },
        ExprV::Sub(l, r) => match spec_emit_expr(*l, cols) {
            Err(x) => Err(x),
            Ok(a) => match spec_emit_expr(*r, cols) {
                Err(x) => Err(x),
                Ok(b) => Ok(call2(FUNC_SUBTRACT, a, b)),
            },
        },
        ExprV::CurrentDate => Ok(SExprV::Call { function: FUNC_CURRENT_DATE, args: Seq::empty() }),
        ExprV::Agg { .. } => Err(EmitErrorV::UnsupportedExpression("aggregate Expr belongs in NamedAggregate"@)),
        ExprV::Sql(s) => Err(EmitErrorV::UnsupportedExpression("SQL: "@ + s)),
    }
}

/// The view of an emission result.
pub open spec fn sexpr_result(r: Result<SubstraitExpr, EmitError>) -> Result<SExprV, EmitErrorV> {
    match r {
        Ok(x) => Ok(x@),
        Err(e) => Err(e@),
    }
}

pub fn emit_field_reference(field: u32) -> (res: SubstraitExpr)
    ensures
        res@ == SExprV::Field(field),
{
    SubstraitExpr::Field(field)
}

pub fn scalar_fn(function: u32, args: Vec<SubstraitExpr>) -> (res: SubstraitExpr)
    ensures
        res@ == (SExprV::Call { function, args: sexprs_view(args@) }),
{
    SubstraitExpr::Call { function, args }
}

fn call_two(f: u32, a: SubstraitExpr, b: SubstraitExpr) -> (res: SubstraitExpr)
    ensures
        res@ == call2(f, a@, b@),
{
    let ghost av = a@;
    let ghost bv = b@;
    let args = vec![a, b];
    proof {
        assert(sexprs_view(args@) =~= seq![av, bv]);
    }
    scalar_fn(f, args)
}

/// `a = b` over two field positions.
pub fn binary_eq_field_ref(left: u32, right: u32) -> (res: SubstraitExpr)
    ensures
        res@ == call2(FUNC_EQUAL, SExprV::Field(left), SExprV::Field(right)),
{
    call_two(FUNC_EQUAL, emit_field_reference(left), emit_field_reference(right))
}

/// A literal that is never null.
pub fn i64_literal(v: i64) -> (res: SubstraitExpr)
    ensures
        res@ == (SExprV::Literal { nullable: false, value: SLitV::I64(v) }),
{
    SubstraitExpr::Literal { nullable: false, value: SubstraitLiteral::I64(v) }
}

fn emit_literal(lit: &Literal) -> (res: SubstraitExpr)
    ensures
        res@ == slit(lit@),
{
    let value = match lit {
        Literal::Null => SubstraitLiteral::Null,
        Literal::Bool(b) => SubstraitLiteral::Bool(*b),
        Literal::Int64(i) => SubstraitLiteral::I64(*i),
        Literal::Float64(t) => SubstraitLiteral::Fp64(t.clone()),
        Literal::String(s) => SubstraitLiteral::String(s.clone()),
    };
    SubstraitExpr::Literal { nullable: true, value }
}

/// Combines `es` (at least one) left to right by calls of `f`.
fn fold_exprs(f: u32, es: Vec<SubstraitExpr>) -> (res: SubstraitExpr)
    requires
        es@.len() >= 1,
    ensures
        res@ == fold_calls(f, sexprs_view(es@)),
{
    let ghost all = sexprs_view(es@);
    let n = es.len();
    let mut rest = es;
    let ghost r0 = rest@;
    let mut acc = rest.remove(0);
    proof {
        assert(sexprs_view(r0)[0] == acc@);
        assert(all.take(1) =~= seq![acc@]);
        assert(sexprs_view(rest@) =~= all.skip(1));
    }
    let mut k: usize = 1;
    while rest.len() > 0
        invariant
            1 <= k <= all.len(),
            all.len() == n,
            k + rest@.len() == all.len(),
            sexprs_view(rest@) == all.skip(k as int),
            acc@ == fold_calls(f, all.take(k as int)),
        decreases rest@.len(),
    {
        let ghost r = rest@;
        let x = rest.remove(0);
        proof {
            assert(x == r[0]);
            assert(sexprs_view(r)[0] == x@);
            assert(all.skip(k as int)[0] == all[k as int]);
            assert(all.take(k + 1).drop_last() =~= all.take(k as int));
            assert(sexprs_view(rest@) =~= all.skip(k + 1)) by {
                assert(sexprs_view(rest@) =~= sexprs_view(r).drop_first());
            }
        }
        acc = call_two(f, acc, x);
        k = k + 1;
    }
    proof {
        assert(all.take(k as int) =~= all);
    }
    acc
}

/// `dataset.sql`, the name under which a missing column is reported.
fn column_label(dataset: &str, sql: &str) -> (res: String)
    ensures
        res@ == dataset@ + "."@ + sql@,
{
    let mut m = String::from_str(dataset);
    push_str(&mut m, ".");
    push_str(&mut m, sql);
    m
}

pub fn emit_column_ref(col: &ColumnRef, ctx: &SchemaContext) -> (res: Result<SubstraitExpr, EmitError>)
    ensures
        sexpr_result(res) == spec_emit_expr(ExprV::Column(col@), ctx.cols()),
{
    match ctx.find_column(col.dataset.as_str(), col.sql.as_str()) {
        None => Err(EmitError::ColumnNotFound(column_label(col.dataset.as_str(), col.sql.as_str()))),
        Some(i) => {
            proof {
                assert(i < ctx.cols().len()) by {
                    crate::seqs::lemma_first_match(ctx.cols(), sql_is(col.sql@));
                    crate::seqs::lemma_first_match(ctx.cols(), col_is(col.dataset@, col.sql@));
                }
            }
            Ok(emit_field_reference(i as u32))
        },
    }
}

fn emit_all(es: &Vec<Expr>, ctx: &SchemaContext) -> (res: Result<Vec<SubstraitExpr>, EmitError>)
    ensures
        match all_ok(spec_emit_all(crate::plan::expr::exprs_view(es@), ctx.cols())) {
            Ok(xs) => res matches Ok(r) && sexprs_view(r@) == xs,
            Err(e) => res matches Err(x) && x@ == e,
        },
    decreases es@, 0int,
{
    let ghost ev = crate::plan::expr::exprs_view(es@);
    let ghost rs = spec_emit_all(ev, ctx.cols());
    let ghost p = is_err::<SExprV, EmitErrorV>();
    let mut out: Vec<SubstraitExpr> = Vec::new();
    let mut i: usize = 0;
    while i < es.len()
        invariant
            ev == crate::plan::expr::exprs_view(es@),
            rs == spec_emit_all(ev, ctx.cols()),
            p == is_err::<SExprV, EmitErrorV>(),
            i <= es@.len(),
            rs.len() == es@.len(),
            out.len() == i,
            forall|j: int| 0 <= j < i ==> !p(#[trigger] rs[j]),
            forall|j: int| 0 <= j < i ==> rs[j] == Ok::<SExprV, EmitErrorV>(#[trigger] out@[j]@),
        decreases es@.len() - i,
    {
        assert(ev[i as int] == es@[i as int]@);
        match emit_expr(&es[i], ctx) {
            Ok(x) => {
                out.push(x);
            },
            Err(e) => {
                proof {
                    lemma_first_match_at(rs, p, i as int);
                }
                return Err(e);
            },
        }
        i = i + 1;
    }
    proof {
        lemma_first_match_none(rs, p);
        assert forall|j: int| 0 <= j < out.len() implies sexprs_view(out@)[j] == all_ok(rs)->Ok_0[j] by {
            assert(rs[j] == Ok::<SExprV, EmitErrorV>(out@[j]@));
        }
        assert(sexprs_view(out@) =~= all_ok(rs)->Ok_0);
    }
    Ok(out)
}

fn emit_branches(ps: &Vec<(Expr, Expr)>, ctx: &SchemaContext) -> (res: Result<
    Vec<(SubstraitExpr, SubstraitExpr)>,
    EmitError,
>)
    ensures
        match all_ok(spec_emit_branches(crate::plan::expr::pairs_view(ps@), ctx.cols())) {
            Ok(xs) => res matches Ok(r) && sifs_view(r@) == xs,
            Err(e) => res matches Err(x) && x@ == e,
        },
    decreases ps@, 0int,
{
    let ghost pv = crate::plan::expr::pairs_view(ps@);
    let ghost rs = spec_emit_branches(pv, ctx.cols());
    let ghost p = is_err::<(SExprV, SExprV), EmitErrorV>();
    let mut out: Vec<(SubstraitExpr, SubstraitExpr)> = Vec::new();
    let mut i: usize = 0;
    while i < ps.len()
        invariant
            pv == crate::plan::expr::pairs_view(ps@),
            rs == spec_emit_branches(pv, ctx.cols()),
            p == is_err::<(SExprV, SExprV), EmitErrorV>(),
            i <= ps@.len(),
            rs.len() == ps@.len(),
            out.len() == i,
            forall|j: int| 0 <= j < i ==> !p(#[trigger] rs[j]),
            forall|j: int|
                0 <= j < i ==> rs[j] == Ok::<(SExprV, SExprV), EmitErrorV>(
                    ((#[trigger] out@[j]).0@, out@[j].1@),
                ),
        decreases ps@.len() - i,
    {
        assert(pv[i as int] == (ps@[i as int].0@, ps@[i as int].1@));
        let a = match emit_expr(&ps[i].0, ctx) {
            Ok(x) => x,
            Err(e) => {
                proof {
                    lemma_first_match_at(rs, p, i as int);
                }
                return Err(e);
            },
        };
        let b = match emit_expr(&ps[i].1, ctx) {
            Ok(x) => x,
            Err(e) => {
                proof {
                    lemma_first_match_at(rs, p, i as int);
                }
                return Err(e);
            },
        };
        out.push((a, b));
        i = i + 1;
    }
    proof {
        lemma_first_match_none(rs, p);
        assert forall|j: int| 0 <= j < out.len() implies sifs_view(out@)[j] == all_ok(rs)->Ok_0[j] by {
            assert(rs[j] == Ok::<(SExprV, SExprV), EmitErrorV>((out@[j].0@, out@[j].1@)));
        }
        assert(sifs_view(out@) =~= all_ok(rs)->Ok_0);
    }
    Ok(out)
}

fn emit_in(expr: &Box<Expr>, values: &Vec<Literal>, ctx: &SchemaContext) -> (res: Result<SubstraitExpr, EmitError>)
    ensures
        sexpr_result(res) == (if values@.len() == 0 {
            Ok(slit(LiteralV::Bool(false)))
        } else {
            match spec_emit_expr(expr@, ctx.cols()) {
                Err(x) => Err(x),
                Ok(a) => Ok(fold_calls(FUNC_OR, in_terms(a, crate::plan::expr::literals_view(values@)))),
            }
        }),
    decreases expr, 1int,
{
    if values.len() == 0 {
        return Ok(emit_literal(&Literal::Bool(false)));
    }
    let ghost lv = crate::plan::expr::literals_view(values@);
    let mut terms: Vec<SubstraitExpr> = Vec::new();
    let mut i: usize = 0;
    while i < values.len()
        invariant
            lv == crate::plan::expr::literals_view(values@),
            i <= values@.len(),
            terms.len() == i,
            i > 0 ==> spec_emit_expr(expr@, expr_cols(ctx)) is Ok,
            forall|j: int|
                0 <= j < i ==> (#[trigger] terms@[j])@ == call2(
                    FUNC_EQUAL,
                    spec_emit_expr(expr@, expr_cols(ctx))->Ok_0,
                    slit(lv[j]),
                ),
        decreases values@.len() - i,
    {
        let x = match emit_expr(expr, ctx) {
            Ok(x) => x,
            Err(e) => {
                return Err(e);
            },
        };
        let t = call_two(FUNC_EQUAL, x, emit_literal(&values[i]));
        terms.push(t);
        i = i + 1;
    }
    proof {
        let a = spec_emit_expr(expr@, ctx.cols())->Ok_0;
        assert(sexprs_view(terms@) =~= in_terms(a, lv));
    }
    Ok(fold_exprs(FUNC_OR, terms))
}

/// The schema columns of a context (for use in loop invariants).
pub open spec fn expr_cols(ctx: &SchemaContext) -> Seq<(Seq<char>, Seq<char>)> {
    ctx.cols()
}

pub fn emit_expr(expr: &Expr, ctx: &SchemaContext) -> (res: Result<SubstraitExpr, EmitError>)
    ensures
        sexpr_result(res) == spec_emit_expr(expr@, ctx.cols()),
    decreases expr, 0int,
{
    match expr {
        Expr::Column(col) => emit_column_ref(col, ctx),
        Expr::Literal(lit) => Ok(emit_literal(lit)),
        Expr::Eq(l, r) => {
            let a = match emit_expr(l, ctx) {
                Ok(x) => x,
                Err(e) => {
                    return Err(e);
                },
            };
            let b = match emit_expr(r, ctx) {
                Ok(x) => x,
                Err(e) => {
                    return Err(e);
                },
            };
            Ok(call_two(FUNC_EQUAL, a, b))
        },
        Expr::Ne(l, r) => {
            let a = match emit_expr(l, ctx) {
                Ok(x) => x,
                Err(e) => {
                    return Err(e);
                },
            };
            let b = match emit_expr(r, ctx) {
                Ok(x) => x,
                Err(e) => {
                    return Err(e);
                },
            };
            Ok(call_two(FUNC_NOT_EQUAL, a, b))
        },
        Expr::And(es) => {
            if es.len() == 0 {
                let t = emit_literal(&Literal::Bool(true));
                assert(t@ == slit(LiteralV::Bool(true)));
                assert(crate::plan::expr::exprs_view(es@).len() == 0);
                return Ok(t);
            }
            match emit_all(es, ctx) {
                Ok(xs) => Ok(fold_exprs(FUNC_AND, xs)),
                Err(e) => Err(e),
            }
        },
        Expr::In { expr: inner, values } => emit_in(inner, values, ctx),
        Expr::Case { when_then, else_expr } => {
            let ifs = match emit_branches(when_then, ctx) {
                Ok(x) => x,
                Err(e) => {
                    return Err(e);
                },
            };
            let b = match emit_expr(else_expr, ctx) {
                Ok(x) => x,
                Err(e) => {
                    return Err(e);
                },
            };
            Ok(SubstraitExpr::IfThen { ifs, else_expr: Some(Box::new(b)) })
        },
        Expr::Sub(l, r) => {
            let a = match emit_expr(l, ctx) {
                Ok(x) => x,
                Err(e) => {
                    return Err(e);
                },
            };
            let b = match emit_expr(r, ctx) {
                Ok(x) => x,
                Err(e) => {
                    return Err(e);
                },
            };
            Ok(call_two(FUNC_SUBTRACT, a, b))
        },
        Expr::CurrentDate => {
            let args: Vec<SubstraitExpr> = Vec::new();
            proof {
                assert(sexprs_view(args@) =~= Seq::<SExprV>::empty());
            }
            Ok(scalar_fn(FUNC_CURRENT_DATE, args))
        },
        Expr::Agg { .. } => Err(
            EmitError::UnsupportedExpression(String::from_str("aggregate Expr belongs in NamedAggregate")),
        ),
        Expr::Sql(s) => {
            let mut m = String::from_str("SQL: ");
            push_str(&mut m, s.as_str());
            Err(EmitError::UnsupportedExpression(m))
        },
    }
}

// ---------------------------------------------------------------------------------------------
// Relations

/// The parts of a dotted name (`str::split('.')`, empty parts kept).
pub open spec fn split_dots(s: Seq<char>) -> Seq<Seq<char>>
    decreases s.len(),
{
    let i = char_index(s, '.');
    if i < 0 || i >= s.len() {
        seq![s]
    } else {
        seq![s.subrange(0, i)] + split_dots(s.subrange(i + 1, s.len() as int))
    }
}

fn split_name(source: &str) -> (res: Vec<String>)
    ensures
        strings_view(res@) == split_dots(source@),
    decreases source@.len(),
{
    match split_once_char(source, '.') {
        None => {
            let v = vec![String::from_str(source)];
            proof {
                assert(strings_view(v@) =~= seq![source@]);
            }
            v
        },
        Some((head, tail)) => {
            proof {
                crate::seqs::lemma_first_match(source@, is_char('.'));
            }
            let rest = split_name(tail);
            let mut out = vec![String::from_str(head)];
            let ghost first = strings_view(out@);
            let mut i: usize = 0;
            while i < rest.len()
                invariant
                    i <= rest@.len(),
                    first == seq![head@],
                    strings_view(out@) == first + strings_view(rest@).take(i as int),
                decreases rest@.len() - i,
            {
                let ghost before = strings_view(out@);
                out.push(rest[i].clone());
                proof {
                    assert(strings_view(out@) =~= before.push(rest@[i as int]@));
                    assert(strings_view(rest@).take(i + 1) =~= strings_view(rest@).take(i as int).push(
                        rest@[i as int]@,
                    ));
                }
                i = i + 1;
            }
            proof {
                assert(strings_view(rest@).take(rest@.len() as int) =~= strings_view(rest@));
            }
            out
        },
    }
}

/// A scan: the named table read with its columns; the columns join the schema.
pub fn emit_scan(source: &str, dataset: &str, columns: &Vec<String>, ctx: &mut SchemaContext) -> (res: SubstraitRel)
    ensures
        res@ == (SRelV::Read { table: split_dots(source@), columns: strings_view(columns@) }),
        final(ctx).cols() == old(ctx).cols() + scan_cols(dataset@, strings_view(columns@)),
{
    ctx.add_scan(dataset, columns);
    let mut cols: Vec<String> = Vec::new();
    let mut i: usize = 0;
    while i < columns.len()
        invariant
            i <= columns@.len(),
            strings_view(cols@) == strings_view(columns@).take(i as int),
        decreases columns@.len() - i,
    {
        let ghost before = strings_view(cols@);
        cols.push(columns[i].clone());
        proof {
            assert(strings_view(cols@) =~= before.push(columns@[i as int]@));
            assert(strings_view(columns@).take(i + 1) =~= strings_view(columns@).take(i as int).push(
                columns@[i as int]@,
            ));
        }
        i = i + 1;
    }
    proof {
        assert(strings_view(columns@).take(columns@.len() as int) =~= strings_view(columns@));
    }
    SubstraitRel::Read { table: split_name(source), columns: cols }
}

/// The equality of a join key: the left column in the left schema, the right column in the right
/// schema shifted by `offset`.
pub open spec fn spec_key_expr(
    k: JoinKeyV,
    lc: Seq<(Seq<char>, Seq<char>)>,
    rc: Seq<(Seq<char>, Seq<char>)>,
    offset: int,
) -> Result<SExprV, EmitErrorV> {
    let li = find_col(lc, k.left_dataset, k.left_sql);
    let ri = find_col(rc, k.right_dataset, k.right_sql);
    if li < 0 {
        Err(EmitErrorV::ColumnNotFound(k.left_dataset + "."@ + k.left_sql))
    } else if ri < 0 {
        Err(EmitErrorV::ColumnNotFound(k.right_dataset + "."@ + k.right_sql))
    } else {
        Ok(call2(FUNC_EQUAL, SExprV::Field(li as u32), SExprV::Field((offset + ri) as u32)))
    }
}

pub fn join_key_expr(key: &JoinKey, left_ctx: &SchemaContext, right_ctx: &SchemaContext, right_offset: usize) -> (res:
    Result<SubstraitExpr, EmitError>)
    ensures
        sexpr_result(res) == spec_key_expr(key@, left_ctx.cols(), right_ctx.cols(), right_offset as int),
{
    let left_idx = match left_ctx.find_column(key.left_dataset.as_str(), key.left_sql.as_str()) {
        Some(i) => i,
        None => {
            return Err(EmitError::ColumnNotFound(column_label(key.left_dataset.as_str(), key.left_sql.as_str())));
        },
    };
    let right_local = match right_ctx.find_column(key.right_dataset.as_str(), key.right_sql.as_str()) {
        Some(i) => i,
        None => {
            return Err(
                EmitError::ColumnNotFound(column_label(key.right_dataset.as_str(), key.right_sql.as_str())),
            );
        },
    };
    let sum: u128 = right_offset as u128 + right_local as u128;
    Ok(binary_eq_field_ref(left_idx as u32, sum as u32))
}

pub open spec fn key_results(
    on: Seq<JoinKeyV>,
    lc: Seq<(Seq<char>, Seq<char>)>,
    rc: Seq<(Seq<char>, Seq<char>)>,
    offset: int,
) -> Seq<Result<SExprV, EmitErrorV>> {
    Seq::new(on.len(), |i: int| spec_key_expr(on[i], lc, rc, offset))
}

/// A relation over the schema `cols`, and the schema after it: scans add their columns; a join
/// reads both sides on fresh schemas and appends them, its keys combined with `and`; a filter
/// reads its input and its predicate over the input's schema. A nested aggregate is refused.
pub open spec fn spec_emit_rel(p: PlanV, cols: Seq<(Seq<char>, Seq<char>)>) -> Result<
    (SRelV, Seq<(Seq<char>, Seq<char>)>),
    EmitErrorV,
>
    decreases p,
{
    match p {
        PlanV::Scan { source, dataset, columns } => Ok(
            (SRelV::Read { table: split_dots(source), columns }, cols + scan_cols(dataset, columns)),
        ),
        PlanV::Join { left, right, on } => match spec_emit_rel(*left, Seq::empty()) {
            Err(e) => Err(e),
            Ok((lr, lc)) => match spec_emit_rel(*right, Seq::empty()) {
                Err(e) => Err(e),
                Ok((rr, rc)) => if on.len() == 0 {
                    Err(EmitErrorV::InvalidPlan("join with no keys"@))
                } else {
                    match all_ok(key_results(on, lc, rc, (cols + lc).len() as int)) {
                        Err(e) => Err(e),
                        Ok(ks) => Ok(
                            (
                                SRelV::Join {
                                    left: Box::new(lr),
                                    right: Box::new(rr),
                                    condition: fold_calls(FUNC_AND, ks),
                                },
                                cols + lc + rc,
                            ),
                        ),
                    }
                },
            },
        },
        PlanV::Filter { input, predicate } => match spec_emit_rel(*input, cols) {
            Err(e) => Err(e),
            Ok((r, c)) => match spec_emit_expr(predicate, c) {
                Err(e) => Err(e),
                Ok(x) => Ok((SRelV::Filter { input: Box::new(r), condition: x }, c)),
            },
        },
        PlanV::Aggregate { .. } => Err(EmitErrorV::InvalidPlan("unexpected nested Aggregate in input rel"@)),
    }
}

fn join_keys(on: &Vec<JoinKey>, left_ctx: &SchemaContext, right_ctx: &SchemaContext, right_offset: usize) -> (res:
    Result<Vec<SubstraitExpr>, EmitError>)
    ensures
        match all_ok(key_results(join_keys_view(on@), left_ctx.cols(), right_ctx.cols(), right_offset as int)) {
            Ok(xs) => res matches Ok(r) && sexprs_view(r@) == xs,
            Err(e) => res matches Err(x) && x@ == e,
        },
{
    let ghost rs = key_results(join_keys_view(on@), left_ctx.cols(), right_ctx.cols(), right_offset as int);
    let ghost p = is_err::<SExprV, EmitErrorV>();
    let mut out: Vec<SubstraitExpr> = Vec::new();
    let mut i: usize = 0;
    while i < on.len()
        invariant
            rs == key_results(join_keys_view(on@), left_ctx.cols(), right_ctx.cols(), right_offset as int),
            p == is_err::<SExprV, EmitErrorV>(),
            i <= on@.len(),
            rs.len() == on@.len(),
            out.len() == i,
            forall|j: int| 0 <= j < i ==> !p(#[trigger] rs[j]),
            forall|j: int| 0 <= j < i ==> rs[j] == Ok::<SExprV, EmitErrorV>(#[trigger] out@[j]@),
        decreases on@.len() - i,
    {
        match join_key_expr(&on[i], left_ctx, right_ctx, right_offset) {
            Ok(x) => {
                out.push(x);
            },
            Err(e) => {
                proof {
                    lemma_first_match_at(rs, p, i as int);
                }
                return Err(e);
            },
        }
        i = i + 1;
    }
    proof {
        lemma_first_match_none(rs, p);
        assert forall|j: int| 0 <= j < out.len() implies sexprs_view(out@)[j] == all_ok(rs)->Ok_0[j] by {
            assert(rs[j] == Ok::<SExprV, EmitErrorV>(out@[j]@));
        }
        assert(sexprs_view(out@) =~= all_ok(rs)->Ok_0);
    }
    Ok(out)
}

pub fn emit_rel(plan: &LogicalPlan, ctx: &mut SchemaContext) -> (res: Result<SubstraitRel, EmitError>)
    ensures
        match spec_emit_rel(plan@, old(ctx).cols()) {
            Ok((r, c)) => res matches Ok(x) && x@ == r && final(ctx).cols() == c,
            Err(e) => res matches Err(x) && x@ == e,
        },
    decreases plan, 1int,
{
    match plan {
        LogicalPlan::Scan { source, dataset, columns } => Ok(
            emit_scan(source.as_str(), dataset.as_str(), columns, ctx),
        ),
        LogicalPlan::Join { .. } => emit_join(plan, ctx),
        LogicalPlan::Filter { input, predicate } => {
            let input_rel = match emit_rel(input, ctx) {
                Ok(r) => r,
                Err(e) => {
                    return Err(e);
                },
            };
            let condition = match emit_expr(predicate, ctx) {
                Ok(c) => c,
                Err(e) => {
                    return Err(e);
                },
            };
            Ok(SubstraitRel::Filter { input: Box::new(input_rel), condition })
        },
        LogicalPlan::Aggregate { .. } => Err(EmitError::InvalidPlan("unexpected nested Aggregate in input rel")),
    }
}

fn emit_join(plan: &LogicalPlan, ctx: &mut SchemaContext) -> (res: Result<SubstraitRel, EmitError>)
    requires
        plan is Join,
    ensures
        match spec_emit_rel(plan@, old(ctx).cols()) {
            Ok((r, c)) => res matches Ok(x) && x@ == r && final(ctx).cols() == c,
            Err(e) => res matches Err(x) && x@ == e,
        },
    decreases plan, 0int,
{
    let (left, right, on) = match plan {
        LogicalPlan::Join { left, right, on } => (left, right, on),
        _ => {
            return Err(EmitError::InvalidPlan("join expected"));
        },
    };
    let mut left_ctx = SchemaContext::new();
    let left_rel = match emit_rel(left, &mut left_ctx) {
        Ok(r) => r,
        Err(e) => {
            return Err(e);
        },
    };
    let mut right_ctx = SchemaContext::new();
    let right_rel = match emit_rel(right, &mut right_ctx) {
        Ok(r) => r,
        Err(e) => {
            return Err(e);
        },
    };
    let ghost lc = left_ctx.cols();
    let ghost rc = right_ctx.cols();
    let ghost start = ctx.cols();
    let lcopy = SchemaContext { columns: copy_columns(&left_ctx.columns) };
    ctx.merge(lcopy);
    let right_offset = ctx.len();
    let rcopy = SchemaContext { columns: copy_columns(&right_ctx.columns) };
    ctx.merge(rcopy);
    if on.len() == 0 {
        return Err(EmitError::InvalidPlan("join with no keys"));
    }
    let keys = match join_keys(on, &left_ctx, &right_ctx, right_offset) {
        Ok(k) => k,
        Err(e) => {
            return Err(e);
        },
    };
    let cond = fold_exprs(FUNC_AND, keys);
    proof {
        assert(ctx.cols() =~= start + lc + rc);
    }
    Ok(SubstraitRel::Join { left: Box::new(left_rel), right: Box::new(right_rel), condition: cond })
}

fn copy_columns(c: &Vec<(String, String)>) -> (res: Vec<(String, String)>)
    ensures
        cols_view(res@) == cols_view(c@),
{
    let mut out: Vec<(String, String)> = Vec::new();
    let mut i: usize = 0;
    while i < c.len()
        invariant
            i <= c@.len(),
            cols_view(out@) == cols_view(c@).take(i as int),
        decreases c@.len() - i,
    {
        let ghost before = cols_view(out@);
        out.push((c[i].0.clone(), c[i].1.clone()));
        proof {
            assert(cols_view(out@) =~= before.push((c@[i as int].0@, c@[i as int].1@)));
            assert(cols_view(c@).take(i + 1) =~= cols_view(c@).take(i as int).push(
                (c@[i as int].0@, c@[i as int].1@),
            ));
        }
        i = i + 1;
    }
    proof {
        assert(cols_view(c@).take(c@.len() as int) =~= cols_view(c@));
    }
    out
}

// ---------------------------------------------------------------------------------------------
// Aggregation and the plan

/// The function anchor of an aggregate.
pub open spec fn agg_anchor(f: AggFunc) -> u32 {
    match f {
        AggFunc::Sum => FUNC_SUM,
        AggFunc::Avg => FUNC_AVG,
        AggFunc::Count => FUNC_COUNT,
        AggFunc::Min => FUNC_MIN,
        AggFunc::Max => FUNC_MAX,
    }
}

/// A measure: the metric's aggregate over its argument (the non-null literal 1 without one).
pub open spec fn spec_measure(a: NamedAggregateV, cols: Seq<(Seq<char>, Seq<char>)>) -> Result<SMeasureV, EmitErrorV> {
    match a.expr {
        ExprV::Agg { func, distinct, arg } => match arg {
            None => Ok(
                SMeasureV {
                    function: agg_anchor(func),
                    distinct,
                    arg: SExprV::Literal { nullable: false, value: SLitV::I64(1) },
                },
            ),
            Some(x) => match spec_emit_expr(*x, cols) {
                Err(e) => Err(e),
                Ok(y) => Ok(SMeasureV { function: agg_anchor(func), distinct, arg: y }),
            },
        },
        _ => Err(
            EmitErrorV::UnsupportedExpression("metric `"@ + a.name + "` is not a structured aggregate"@),
        ),
    }
}

fn emit_measure(agg: &NamedAggregate, ctx: &SchemaContext) -> (res: Result<SubstraitMeasure, EmitError>)
    ensures
        match spec_measure(agg@, ctx.cols()) {
            Ok(m) => res matches Ok(r) && r@ == m,
            Err(e) => res matches Err(x) && x@ == e,
        },
{
    match &agg.expr {
        Expr::Agg { func, distinct, arg } => {
            let function = match func {
                AggFunc::Sum => FUNC_SUM,
                AggFunc::Avg => FUNC_AVG,
                AggFunc::Count => FUNC_COUNT,
                AggFunc::Min => FUNC_MIN,
                AggFunc::Max => FUNC_MAX,
            };
            let arg_expr = match arg {
                None => i64_literal(1),
                Some(inner) => match emit_expr(inner, ctx) {
                    Ok(x) => x,
                    Err(e) => {
                        return Err(e);
                    },
                },
            };
            Ok(SubstraitMeasure { function, distinct: *distinct, arg: arg_expr })
        },
        _ => {
            let mut m = String::from_str("metric `");
            push_str(&mut m, agg.name.as_str());
            push_str(&mut m, "` is not a structured aggregate");
            Err(EmitError::UnsupportedExpression(m))
        },
    }
}

pub open spec fn measure_results(aggs: Seq<NamedAggregateV>, cols: Seq<(Seq<char>, Seq<char>)>) -> Seq<
    Result<SMeasureV, EmitErrorV>,
> {
    Seq::new(aggs.len(), |i: int| spec_measure(aggs[i], cols))
}

fn emit_measures(aggs: &Vec<NamedAggregate>, ctx: &SchemaContext) -> (res: Result<Vec<SubstraitMeasure>, EmitError>)
    ensures
        match all_ok(measure_results(crate::plan::aggregates_view(aggs@), ctx.cols())) {
            Ok(ms) => res matches Ok(r) && measures_view(r@) == ms,
            Err(e) => res matches Err(x) && x@ == e,
        },
{
    let ghost rs = measure_results(crate::plan::aggregates_view(aggs@), ctx.cols());
    let ghost p = is_err::<SMeasureV, EmitErrorV>();
    let mut out: Vec<SubstraitMeasure> = Vec::new();
    let mut i: usize = 0;
    while i < aggs.len()
        invariant
            rs == measure_results(crate::plan::aggregates_view(aggs@), ctx.cols()),
            p == is_err::<SMeasureV, EmitErrorV>(),
            i <= aggs@.len(),
            rs.len() == aggs@.len(),
            out.len() == i,
            forall|j: int| 0 <= j < i ==> !p(#[trigger] rs[j]),
            forall|j: int| 0 <= j < i ==> rs[j] == Ok::<SMeasureV, EmitErrorV>(#[trigger] out@[j]@),
        decreases aggs@.len() - i,
    {
        match emit_measure(&aggs[i], ctx) {
            Ok(x) => {
                out.push(x);
            },
            Err(e) => {
                proof {
                    lemma_first_match_at(rs, p, i as int);
                }
                return Err(e);
            },
        }
        i = i + 1;
    }
    proof {
        lemma_first_match_none(rs, p);
        assert forall|j: int| 0 <= j < out.len() implies measures_view(out@)[j] == all_ok(rs)->Ok_0[j] by {
            assert(rs[j] == Ok::<SMeasureV, EmitErrorV>(out@[j]@));
        }
        assert(measures_view(out@) =~= all_ok(rs)->Ok_0);
    }
    Ok(out)
}

/// The output name of a grouping expression: `dataset.sql` or `sql` for a column, the text of
/// opaque SQL, else `expr`.
pub open spec fn output_name(e: ExprV) -> Seq<char> {
    match e {
        ExprV::Column(c) => if c.dataset.len() > 0 {
            c.dataset + "."@ + c.sql
        } else {
            c.sql
        },
        ExprV::Sql(s) => s,
        _ => "expr"@,
    }
}

fn output_name_for_expr(expr: &Expr) -> (res: String)
    ensures
        res@ == output_name(expr@),
{
    match expr {
        Expr::Column(c) => if c.dataset.unicode_len() > 0 {
            column_label(c.dataset.as_str(), c.sql.as_str())
        } else {
            c.sql.clone()
        },
        Expr::Sql(s) => s.clone(),
        _ => String::from_str("expr"),
    }
}

/// The extension URIs a plan declares (anchor, URI).
pub open spec fn extension_uris() -> Seq<(u32, Seq<char>)> {
    seq![
        (URI_AGGREGATE, "/functions_aggregate_generic.yaml"@),
        (URI_COMPARISON, "/functions_comparison.yaml"@),
        (URI_BOOLEAN, "/functions_boolean.yaml"@),
        (URI_ARITHMETIC, "/functions_arithmetic.yaml"@),
        (URI_DATETIME, "/functions_datetime.yaml"@),
    ]
}

/// The functions a plan declares (URI anchor, function anchor, name).
pub open spec fn extension_functions() -> Seq<(u32, u32, Seq<char>)> {
    seq![
        (URI_AGGREGATE, FUNC_SUM, "sum"@),
        (URI_AGGREGATE, FUNC_AVG, "avg"@),
        (URI_AGGREGATE, FUNC_COUNT, "count"@),
        (URI_AGGREGATE, FUNC_MIN, "min"@),
        (URI_AGGREGATE, FUNC_MAX, "max"@),
        (URI_COMPARISON, FUNC_EQUAL, "equal"@),
        (URI_COMPARISON, FUNC_NOT_EQUAL, "not_equal"@),
        (URI_BOOLEAN, FUNC_AND, "and"@),
        (URI_BOOLEAN, FUNC_OR, "or"@),
        (URI_ARITHMETIC, FUNC_SUBTRACT, "subtract"@),
        (URI_DATETIME, FUNC_CURRENT_DATE, "current_date"@),
    ]
}

pub fn make_function_extension(uri_ref: u32, anchor: u32, name: &str) -> (res: (u32, u32, String))
    ensures
        res.0 == uri_ref,
        res.1 == anchor,
        res.2@ == name@,
{
    (uri_ref, anchor, String::from_str(name))
}

pub fn build_extension_uris() -> (res: Vec<(u32, String)>)
    ensures
        Seq::new(res@.len(), |i: int| (res@[i].0, res@[i].1@)) == extension_uris(),
{
    let v = vec![
        (URI_AGGREGATE, String::from_str("/functions_aggregate_generic.yaml")),
        (URI_COMPARISON, String::from_str("/functions_comparison.yaml")),
        (URI_BOOLEAN, String::from_str("/functions_boolean.yaml")),
        (URI_ARITHMETIC, String::from_str("/functions_arithmetic.yaml")),
        (URI_DATETIME, String::from_str("/functions_datetime.yaml")),
    ];
    proof {
        assert(Seq::new(v@.len(), |i: int| (v@[i].0, v@[i].1@)) =~= extension_uris());
    }
    v
}

pub fn build_extensions() -> (res: Vec<(u32, u32, String)>)
    ensures
        Seq::new(res@.len(), |i: int| (res@[i].0, res@[i].1, res@[i].2@)) == extension_functions(),
{
    let v = vec![
        make_function_extension(URI_AGGREGATE, FUNC_SUM, "sum"),
        make_function_extension(URI_AGGREGATE, FUNC_AVG, "avg"),
        make_function_extension(URI_AGGREGATE, FUNC_COUNT, "count"),
        make_function_extension(URI_AGGREGATE, FUNC_MIN, "min"),
        make_function_extension(URI_AGGREGATE, FUNC_MAX, "max"),
        make_function_extension(URI_COMPARISON, FUNC_EQUAL, "equal"),
        make_function_extension(URI_COMPARISON, FUNC_NOT_EQUAL, "not_equal"),
        make_function_extension(URI_BOOLEAN, FUNC_AND, "and"),
        make_function_extension(URI_BOOLEAN, FUNC_OR, "or"),
        make_function_extension(URI_ARITHMETIC, FUNC_SUBTRACT, "subtract"),
        make_function_extension(URI_DATETIME, FUNC_CURRENT_DATE, "current_date"),
    ];
    proof {
        assert(Seq::new(v@.len(), |i: int| (v@[i].0, v@[i].1, v@[i].2@)) =~= extension_functions());
    }
    v
}

/// The grouping sets of an aggregation over `n` grouping expressions: none without any, else
/// one set that groups by all of them, in order.
pub open spec fn grouping_sets(n: nat) -> Seq<Seq<u32>> {
    if n == 0 {
        Seq::empty()
    } else {
        seq![Seq::new(n, |i: int| i as u32)]
    }
}

fn build_groupings(n: usize) -> (res: Vec<Vec<u32>>)
    ensures
        Seq::new(res@.len(), |i: int| res@[i]@) == grouping_sets(n as nat),
{
    let mut out: Vec<Vec<u32>> = Vec::new();
    if n > 0 {
        let mut refs: Vec<u32> = Vec::new();
        let mut i: usize = 0;
        while i < n
            invariant
                i <= n,
                refs@ == Seq::new(i as nat, |k: int| k as u32),
            decreases n - i,
        {
            refs.push(i as u32);
            proof {
                assert(refs@ =~= Seq::new((i + 1) as nat, |k: int| k as u32));
            }
            i = i + 1;
        }
        out.push(refs);
    }
    proof {
        assert(Seq::new(out@.len(), |i: int| out@[i]@) =~= grouping_sets(n as nat));
    }
    out
}

/// The Substrait plan of a logical plan whose root is an aggregate: the input relation, the
/// aggregation of the grouping expressions and the measures over the input's schema, and the
/// output names of the groupings then the metrics.
pub open spec fn spec_to_plan(p: PlanV) -> Result<SPlanV, EmitErrorV> {
    match p {
        PlanV::Aggregate { input, group_by, aggregates } => match spec_emit_rel(*input, Seq::empty()) {
            Err(e) => Err(e),
            Ok((r, c)) => match all_ok(spec_emit_all(group_by, c)) {
                Err(e) => Err(e),
                Ok(gs) => match all_ok(measure_results(aggregates, c)) {
                    Err(e) => Err(e),
                    Ok(ms) => Ok(
                        SPlanV {
                            version: (0, 62, 0),
                            extension_uris: extension_uris(),
                            extensions: extension_functions(),
                            root: SRelV::Aggregate {
                                input: Box::new(r),
                                grouping_expressions: gs,
                                groupings: grouping_sets(gs.len()),
                                measures: ms,
                            },
                            names: Seq::new(group_by.len(), |i: int| output_name(group_by[i])) + Seq::new(
                                aggregates.len(),
                                |i: int| aggregates[i].name,
                            ),
                        },
                    ),
                },
            },
        },
        _ => Err(EmitErrorV::Unsupported("root must be Aggregate (use planner output)"@)),
    }
}

/// Build a Substrait plan from `plan` (aggregate root).
pub fn to_plan(plan: &LogicalPlan) -> (res: Result<SubstraitPlan, EmitError>)
    ensures
        match spec_to_plan(plan@) {
            Ok(p) => res matches Ok(r) && r@ == p,
            Err(e) => res matches Err(x) && x@ == e,
        },
{
    let (input, group_by, aggregates) = match plan {
        LogicalPlan::Aggregate { input, group_by, aggregates } => (input, group_by, aggregates),
        _ => {
            return Err(EmitError::Unsupported("root must be Aggregate (use planner output)"));
        },
    };
    let mut ctx = SchemaContext::new();
    let input_rel = match emit_rel(input, &mut ctx) {
        Ok(r) => r,
        Err(e) => {
            return Err(e);
        },
    };
    let grouping_expressions = match emit_all(group_by, &ctx) {
        Ok(g) => g,
        Err(e) => {
            return Err(e);
        },
    };
    let measures = match emit_measures(aggregates, &ctx) {
        Ok(m) => m,
        Err(e) => {
            return Err(e);
        },
    };
    let ghost gv = crate::plan::expr::exprs_view(group_by@);
    let ghost av = crate::plan::aggregates_view(aggregates@);
    let mut names: Vec<String> = Vec::new();
    let mut i: usize = 0;
    while i < group_by.len()
        invariant
            gv == crate::plan::expr::exprs_view(group_by@),
            i <= group_by@.len(),
            strings_view(names@) == Seq::new(gv.len(), |k: int| output_name(gv[k])).take(i as int),
        decreases group_by@.len() - i,
    {
        let ghost before = strings_view(names@);
        let n = output_name_for_expr(&group_by[i]);
        names.push(n);
        proof {
            assert(gv[i as int] == group_by@[i as int]@);
            assert(strings_view(names@) =~= before.push(n@));
            assert(Seq::new(gv.len(), |k: int| output_name(gv[k])).take(i + 1) =~= Seq::new(
                gv.len(),
                |k: int| output_name(gv[k]),
            ).take(i as int).push(output_name(gv[i as int])));
        }
        i = i + 1;
    }
    let ghost gnames = strings_view(names@);
    proof {
        assert(gnames =~= Seq::new(gv.len(), |k: int| output_name(gv[k])));
    }
    let mut k: usize = 0;
    while k < aggregates.len()
        invariant
            av == crate::plan::aggregates_view(aggregates@),
            k <= aggregates@.len(),
            strings_view(names@) == gnames + Seq::new(av.len(), |j: int| av[j].name).take(k as int),
        decreases aggregates@.len() - k,
    {
        let ghost before = strings_view(names@);
        names.push(aggregates[k].name.clone());
        proof {
            assert(strings_view(names@) =~= before.push(aggregates@[k as int].name@));
            assert(Seq::new(av.len(), |j: int| av[j].name).take(k + 1) =~= Seq::new(
                av.len(),
                |j: int| av[j].name,
            ).take(k as int).push(av[k as int].name));
        }
        k = k + 1;
    }
    proof {
        assert(Seq::new(av.len(), |j: int| av[j].name).take(av.len() as int) =~= Seq::new(
            av.len(),
            |j: int| av[j].name,
        ));
    }
    let groupings = build_groupings(grouping_expressions.len());
    let extension_uris = build_extension_uris();
    let extensions = build_extensions();
    let res = SubstraitPlan {
        version: (0, 62, 0),
        extension_uris,
        extensions,
        root: SubstraitRel::Aggregate { input: Box::new(input_rel), grouping_expressions, groupings, measures },
        names,
    };
    proof {
        let sp = spec_to_plan(plan@)->Ok_0;
        assert(res@.names =~= sp.names);
        assert(res@.extension_uris =~= sp.extension_uris);
        assert(res@.extensions =~= sp.extensions);
    }
    Ok(res)
}

} // verus!
