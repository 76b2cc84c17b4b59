//! MNML JSON expressions compiled into [`Expr`](super::expr::Expr).

use vstd::prelude::*;

use super::expr::{
    col_v, exprs_view, literals_of, literals_view, pairs_view, spec_and, spec_literal_from_json, AggFunc, Expr,
    ExprV, Literal, LiteralV,
};
use super::{pick_expression_sql, spec_pick_sql};
use crate::json::{
    json_seq_view, json_to_string, jv_as_str, jv_get, key_is, m_find, spec_json_to_string, JsonV, JsonValue,
};
use crate::model::dataset::Dataset;
use crate::model::extensions::{ext_json, CustomExtension};
use crate::model::field::Field;
use crate::model::metric::Metric;
use crate::model::mnml_dialect::{
    envelope_from_expression, field_mnml_expr_value, spec_envelope_from_expression,
    spec_field_expr_value,
};
use crate::model::mnml_expression::{
    expr_exts, ext_envelope_error, first_bad_expr_ext, is_bad_envelope, kind_names, kind_of,
    decode_metric_def, metric_def_error, metric_def_matches, metric_def_ok,
    parse_mnml_expression_extension, MnmlExpressionEnvelope, MnmlExpressionKind, MnmlMetricDef,
};
use crate::json::unit_variant;
use crate::model::semantic_model::SemanticModel;
use crate::resolver::bind::{dataset_named, field_named};
use crate::resolver::error::{QueryError, QueryErrorV};
use crate::seqs::{all_ok, first_match, is_err, lemma_first_match_at, lemma_first_match_none};
use crate::text::{
    char_index, contains_char, debug_str, has_char, push_char, push_str, spec_debug_str,
    split_once_char, str_chars, str_eq, trim, trim_str,
};

verus! {

/// Context for resolving `dataset.field` paths in MNML JSON.
pub struct MnmlResolveCtx<'a> {
    pub model: &'a SemanticModel,
    /// Default dataset when `col` is unqualified (field on a dataset).
    pub default_dataset: Option<&'a str>,
}

/// The view of an optional string slice.
pub open spec fn opt_str_view(s: Option<&str>) -> Option<Seq<char>> {
    match s {
        Some(x) => Some(x@),
        None => None,
    }
}

/// A `dataset.field` path read against a default dataset: trimmed, split at the first `.` when
/// there is one (both sides non-empty), else the whole path is a field of the default dataset.
pub open spec fn spec_parse_col_path(path: Seq<char>, dflt: Option<Seq<char>>) -> Result<
    (Seq<char>, Seq<char>),
    QueryErrorV,
> {
    let p = trim(path);
    let i = char_index(p, '.');
    if i >= 0 {
        let ds = p.subrange(0, i);
        let f = p.subrange(i + 1, p.len() as int);
        if ds.len() == 0 || f.len() == 0 {
            Err(QueryErrorV::InvalidFieldRef(p))
        } else {
            Ok((ds, f))
        }
    } else {
        match dflt {
            Some(d) => Ok((d, p)),
            None => Err(QueryErrorV::InvalidFieldRef("unqualified col "@ + spec_debug_str(p))),
        }
    }
}

fn parse_col_path(path: &str, default_dataset: Option<&str>) -> (res: Result<(String, String), QueryError>)
    ensures
        match spec_parse_col_path(path@, opt_str_view(default_dataset)) {
            Ok((d, f)) => res matches Ok((a, b)) && a@ == d && b@ == f,
            Err(e) => res matches Err(x) && x@ == e,
        },
{
    let p = trim_str(path);
    match split_once_char(p, '.') {
        Some((ds, field)) => {
            if ds.unicode_len() == 0 || field.unicode_len() == 0 {
                return Err(QueryError::InvalidFieldRef(String::from_str(p)));
            }
            Ok((String::from_str(ds), String::from_str(field)))
        },
        None => match default_dataset {
            Some(d) => Ok((String::from_str(d), String::from_str(p))),
            None => {
                let mut msg = String::from_str("unqualified col ");
                let q = debug_str(p);
                push_str(&mut msg, q.as_str());
                Err(QueryError::InvalidFieldRef(msg))
            },
        },
    }
}

/// The first dataset of `m` named `n`, or -1.
pub open spec fn first_dataset(m: SemanticModel, n: Seq<char>) -> int {
    first_match(m.datasets@, dataset_named(n))
}

/// The first field of dataset `n` named `f`: the dataset is looked up first, then the field.
pub open spec fn spec_lookup_field(m: SemanticModel, n: Seq<char>, f: Seq<char>) -> Result<Field, QueryErrorV> {
    let di = first_dataset(m, n);
    if di < 0 {
        Err(QueryErrorV::DatasetNotFound(n))
    } else {
        let fields = m.datasets@[di].fields@;
        let fi = first_match(fields, field_named(f));
        if fi < 0 {
            Err(QueryErrorV::FieldNotFound(n + seq!['.'] + f))
        } else {
            Ok(fields[fi])
        }
    }
}

/// Finds the first dataset of `model` named `name`.
pub(crate) fn find_first_dataset(model: &SemanticModel, name: &str) -> (res: Option<usize>)
    ensures
        match res {
            Some(i) => i == first_dataset(*model, name@) && i < model.datasets@.len(),
            None => first_dataset(*model, name@) < 0,
        },
{
    let ghost p = dataset_named(name@);
    let mut i: usize = 0;
    while i < model.datasets.len()
        invariant
            p == dataset_named(name@),
            i <= model.datasets@.len(),
            forall|j: int| 0 <= j < i ==> !p(#[trigger] model.datasets@[j]),
        decreases model.datasets@.len() - i,
    {
        if str_eq(model.datasets[i].name.as_str(), name) {
            proof {
                lemma_first_match_at(model.datasets@, p, i as int);
            }
            return Some(i);
        }
        i = i + 1;
    }
    proof {
        lemma_first_match_none(model.datasets@, p);
    }
    None
}

fn lookup_field<'a>(model: &'a SemanticModel, dataset: &str, field: &str) -> (res: Result<
    &'a Field,
    QueryError,
>)
    ensures
        match spec_lookup_field(*model, dataset@, field@) {
            Ok(f) => res matches Ok(r) && *r == f,
            Err(e) => res matches Err(x) && x@ == e,
        },
{
    let ghost p = dataset_named(dataset@);
    let mut i: usize = 0;
    while i < model.datasets.len()
        invariant
            p == dataset_named(dataset@),
            i <= model.datasets@.len(),
            forall|j: int| 0 <= j < i ==> !p(#[trigger] model.datasets@[j]),
        decreases model.datasets@.len() - i,
    {
        if str_eq(model.datasets[i].name.as_str(), dataset) {
            proof {
                lemma_first_match_at(model.datasets@, p, i as int);
            }
            let ds: &Dataset = &model.datasets[i];
            let ghost q = field_named(field@);
            let mut k: usize = 0;
            while k < ds.fields.len()
                invariant
                    q == field_named(field@),
                    first_dataset(*model, dataset@) == i,
                    i < model.datasets@.len(),
                    *ds == model.datasets@[i as int],
                    k <= ds.fields@.len(),
                    forall|j: int| 0 <= j < k ==> !q(#[trigger] ds.fields@[j]),
                decreases ds.fields@.len() - k,
            {
                if str_eq(ds.fields[k].name.as_str(), field) {
                    proof {
                        lemma_first_match_at(ds.fields@, q, k as int);
                    }
                    return Ok(&ds.fields[k]);
                }
                k = k + 1;
            }
            proof {
                lemma_first_match_none(ds.fields@, q);
            }
            let mut msg = String::from_str(dataset);
            push_char(&mut msg, '.');
            push_str(&mut msg, field);
            proof {
                assert(msg@ == dataset@ + seq!['.'] + field@);
            }
            return Err(QueryError::FieldNotFound(msg));
        }
        i = i + 1;
    }
    proof {
        lemma_first_match_none(model.datasets@, p);
    }
    Err(QueryError::DatasetNotFound(String::from_str(dataset)))
}

/// The MNML expression extension of an item: the message of the first one that does not read as
/// an envelope; none without one; else the kind and expression of the first.
pub open spec fn spec_ext_envelope(exts: Seq<CustomExtension>) -> Result<
    Option<(MnmlExpressionKind, JsonV)>,
    Seq<char>,
> {
    let es = expr_exts(exts);
    let b = first_bad_expr_ext(exts);
    if b >= 0 {
        Err(ext_envelope_error(es[b]))
    } else if es.len() == 0 {
        Ok(None)
    } else {
        let v = ext_json(es[0])->0;
        Ok(Some((kind_of(unit_variant(jv_get(v, "kind"@)->0, kind_names())), jv_get(v, "expr"@)->0)))
    }
}

/// The MNML expression JSON of a field: from its MNML dialect entry, else from its MNML
/// expression extension, which must be of kind `field_expr`.
pub open spec fn spec_field_json(f: Field) -> Result<Option<JsonV>, QueryErrorV> {
    match spec_envelope_from_expression(f.expression, MnmlExpressionKind::FieldExpr) {
        Err(m) => Err(QueryErrorV::InvalidMnmlExpression(m)),
        Ok(Some(v)) => Ok(Some(v)),
        Ok(None) => match spec_ext_envelope(f.custom_extensions@) {
            Err(m) => Err(QueryErrorV::InvalidMnmlExpression(m)),
            Ok(None) => Ok(None),
            Ok(Some((k, e))) => if k == MnmlExpressionKind::FieldExpr {
                Ok(Some(e))
            } else {
                Err(
                    QueryErrorV::InvalidMnmlExpression(
                        "field "@ + spec_debug_str(f.name@) + " MNML kind must be field_expr"@,
                    ),
                )
            },
        },
    }
}

/// The MNML metric-definition JSON of a metric: from its MNML dialect entry, else from its MNML
/// expression extension, which must be of kind `metric`.
pub open spec fn spec_metric_json(x: Metric) -> Result<Option<JsonV>, QueryErrorV> {
    match spec_envelope_from_expression(x.expression, MnmlExpressionKind::Metric) {
        Err(m) => Err(QueryErrorV::InvalidMnmlExpression(m)),
        Ok(Some(v)) => Ok(Some(v)),
        Ok(None) => match spec_ext_envelope(x.custom_extensions@) {
            Err(m) => Err(QueryErrorV::InvalidMnmlExpression(m)),
            Ok(None) => Ok(None),
            Ok(Some((k, e))) => if k == MnmlExpressionKind::Metric {
                Ok(Some(e))
            } else {
                Err(
                    QueryErrorV::InvalidMnmlExpression(
                        "metric "@ + spec_debug_str(x.name@) + " MNML kind must be metric"@,
                    ),
                )
            },
        },
    }
}

/// Reads the MNML expression extension of an item and gives its kind and expression.
pub(crate) fn ext_envelope(exts: &Vec<CustomExtension>) -> (res: Result<Option<(MnmlExpressionKind, JsonValue)>, String>)
    ensures
        match spec_ext_envelope(exts@) {
            Ok(None) => res matches Ok(None),
            Ok(Some((k, e))) => res matches Ok(Some((a, b))) && a == k && b@ == e,
            Err(m) => res matches Err(x) && x@ == m,
        },
{
    let r = parse_mnml_expression_extension(exts.as_slice());
    proof {
        crate::seqs::lemma_first_match(expr_exts(exts@), is_bad_envelope());
    }
    match r {
        Err(e) => Err(e),
        Ok(None) => Ok(None),
        Ok(Some(env)) => Ok(Some((env.kind, env.expr))),
    }
}

fn field_mnml_expr_json(field: &Field) -> (res: Result<Option<JsonValue>, QueryError>)
    ensures
        match spec_field_json(*field) {
            Ok(None) => res matches Ok(None),
            Ok(Some(v)) => res matches Ok(Some(r)) && r@ == v,
            Err(e) => res matches Err(x) && x@ == e,
        },
{
    match envelope_from_expression(&field.expression, MnmlExpressionKind::FieldExpr) {
        Err(e) => {
            return Err(QueryError::InvalidMnmlExpression(e));
        },
        Ok(Some(v)) => {
            return Ok(Some(v));
        },
        Ok(None) => {},
    }
    match ext_envelope(&field.custom_extensions) {
        Err(e) => Err(QueryError::InvalidMnmlExpression(e)),
        Ok(None) => Ok(None),
        Ok(Some((kind, expr))) => {
            if kind != MnmlExpressionKind::FieldExpr {
                let mut msg = String::from_str("field ");
                let q = debug_str(field.name.as_str());
                push_str(&mut msg, q.as_str());
                push_str(&mut msg, " MNML kind must be field_expr");
                return Err(QueryError::InvalidMnmlExpression(msg));
            }
            Ok(Some(expr))
        },
    }
}

fn metric_mnml_def_json(metric: &Metric) -> (res: Result<Option<JsonValue>, QueryError>)
    ensures
        match spec_metric_json(*metric) {
            Ok(None) => res matches Ok(None),
            Ok(Some(v)) => res matches Ok(Some(r)) && r@ == v,
            Err(e) => res matches Err(x) && x@ == e,
        },
{
    match envelope_from_expression(&metric.expression, MnmlExpressionKind::Metric) {
        Err(e) => {
            return Err(QueryError::InvalidMnmlExpression(e));
        },
        Ok(Some(v)) => {
            return Ok(Some(v));
        },
        Ok(None) => {},
    }
    match ext_envelope(&metric.custom_extensions) {
        Err(e) => Err(QueryError::InvalidMnmlExpression(e)),
        Ok(None) => Ok(None),
        Ok(Some((kind, expr))) => {
            if kind != MnmlExpressionKind::Metric {
                let mut msg = String::from_str("metric ");
                let q = debug_str(metric.name.as_str());
                push_str(&mut msg, q.as_str());
                push_str(&mut msg, " MNML kind must be metric");
                return Err(QueryError::InvalidMnmlExpression(msg));
            }
            Ok(Some(expr))
        },
    }
}

/// The physical column behind a logical field: an MNML field whose `col` names the field
/// itself, or a dialect expression that is a bare column (no space, no `(`).
pub open spec fn spec_physical_column(m: SemanticModel, ds: Seq<char>, f: Seq<char>) -> Result<
    Seq<char>,
    QueryErrorV,
> {
    match spec_lookup_field(m, ds, f) {
        Err(e) => Err(e),
        Ok(field) => match spec_field_json(field) {
            Err(e) => Err(e),
            Ok(Some(j)) => {
                let nonphys = QueryErrorV::InvalidMnmlExpression(
                    "field "@ + ds + seq!['.'] + f + " is not a physical column"@,
                );
                match jv_get(spec_field_expr_value(j), "col"@) {
                    Some(JsonV::String(c)) => match spec_parse_col_path(c, Some(ds)) {
                        Err(e) => Err(e),
                        Ok((_, fname)) => if fname == field.name@ {
                            Ok(fname)
                        } else {
                            Err(nonphys)
                        },
                    },
                    _ => Err(nonphys),
                }
            },
            Ok(None) => match spec_pick_sql(field.expression) {
                None => Err(QueryErrorV::MissingExpressionSql),
                Some(sql) => if has_char(sql, ' ') || has_char(sql, '(') {
                    Err(
                        QueryErrorV::InvalidMnmlExpression(
                            "field "@ + ds + seq!['.'] + f + " has non-physical dialect expression"@,
                        ),
                    )
                } else {
                    Ok(sql)
                },
            },
        },
    }
}

fn field_path_msg(dataset_name: &str, field_name: &str, tail: &str) -> (res: String)
    ensures
        res@ == "field "@ + dataset_name@ + seq!['.'] + field_name@ + tail@,
{
    let mut msg = String::from_str("field ");
    push_str(&mut msg, dataset_name);
    push_char(&mut msg, '.');
    push_str(&mut msg, field_name);
    push_str(&mut msg, tail);
    proof {
        reveal_strlit("field ");
    }
    msg
}

/// Physical parquet/SQL column name for a logical field (MNML `{ "col": "x" }` or simple dialect).
pub fn physical_column_for_field(model: &SemanticModel, dataset_name: &str, field_name: &str) -> (res:
    Result<String, QueryError>)
    ensures
        match spec_physical_column(*model, dataset_name@, field_name@) {
            Ok(c) => res matches Ok(r) && r@ == c,
            Err(e) => res matches Err(x) && x@ == e,
        },
{
    let field = match lookup_field(model, dataset_name, field_name) {
        Ok(f) => f,
        Err(e) => {
            return Err(e);
        },
    };
    match field_mnml_expr_json(field) {
        Err(e) => {
            return Err(e);
        },
        Ok(Some(expr_json)) => {
            let body = field_mnml_expr_value(&expr_json);
            if let Some(c) = body.get("col") {
                if let Some(col) = c.as_str() {
                    let (_, fname) = match parse_col_path(col, Some(dataset_name)) {
                        Ok(x) => x,
                        Err(e) => {
                            return Err(e);
                        },
                    };
                    if str_eq(fname.as_str(), field.name.as_str()) {
                        return Ok(fname);
                    }
                }
            }
            return Err(
                QueryError::InvalidMnmlExpression(
                    field_path_msg(dataset_name, field_name, " is not a physical column"),
                ),
            );
        },
        Ok(None) => {},
    }
    let sql = match pick_expression_sql(&field.expression) {
        Some(s) => s,
        None => {
            return Err(QueryError::MissingExpressionSql);
        },
    };
    if contains_char(sql.as_str(), ' ') || contains_char(sql.as_str(), '(') {
        return Err(
            QueryError::InvalidMnmlExpression(
                field_path_msg(dataset_name, field_name, " has non-physical dialect expression"),
            ),
        );
    }
    Ok(sql)
}

/// A `col` node resolved to its dataset and physical column.
pub open spec fn spec_resolve_col(m: SemanticModel, dflt: Option<Seq<char>>, path: Seq<char>) -> Result<
    ExprV,
    QueryErrorV,
> {
    match spec_parse_col_path(path, dflt) {
        Err(e) => Err(e),
        Ok((d, f)) => match spec_physical_column(m, d, f) {
            Err(e) => Err(e),
            Ok(c) => Ok(col_v(d, c)),
        },
    }
}

/// Resolve to a physical scan column (for filters and `col` nodes in MNML).
fn resolve_col(path: &str, ctx: &MnmlResolveCtx<'_>) -> (res: Result<Expr, QueryError>)
    ensures
        match spec_resolve_col(*ctx.model, opt_str_view(ctx.default_dataset), path@) {
            Ok(e) => res matches Ok(r) && r@ == e,
            Err(e) => res matches Err(x) && x@ == e,
        },
{
    let (dataset, field_name) = match parse_col_path(path, ctx.default_dataset) {
        Ok(x) => x,
        Err(e) => {
            return Err(e);
        },
    };
    let physical = match physical_column_for_field(ctx.model, dataset.as_str(), field_name.as_str()) {
        Ok(p) => p,
        Err(e) => {
            return Err(e);
        },
    };
    Ok(Expr::column(dataset, physical))
}

/// A member of an object is structurally smaller than the object.
pub proof fn lemma_get_decreases(v: JsonV, k: Seq<char>)
    ensures
        jv_get(v, k) matches Some(x) ==> decreases_to!(v => x),
{
    if let JsonV::Object(m) = v {
        crate::seqs::lemma_first_match(m, key_is(k));
        let i = m_find(m, k);
        if i >= 0 {
            assert(decreases_to!(v => m));
            assert(decreases_to!(m => m[i]));
            assert(decreases_to!(m[i] => m[i].1));
        }
    }
}

/// Every member of every object is structurally smaller than the object.
pub proof fn lemma_get_decreases_all()
    ensures
        forall|v: JsonV, k: Seq<char>|
            #[trigger] jv_get(v, k) is Some ==> decreases_to!(v => jv_get(v, k)->0),
{
    assert forall|v: JsonV, k: Seq<char>| #[trigger] jv_get(v, k) is Some implies decreases_to!(
        v => jv_get(v, k)->0
    ) by {
        lemma_get_decreases(v, k);
    }
}

/// The member named `k` when it is an array.
pub open spec fn get_array(v: JsonV, k: Seq<char>) -> Option<JsonV> {
    match jv_get(v, k) {
        Some(JsonV::Array(items)) => Some(JsonV::Array(items)),
        _ => None,
    }
}

/// A binary node's operands: exactly two, converted in order.
pub open spec fn spec_two(op: Seq<char>, rs: Seq<Result<ExprV, QueryErrorV>>) -> Result<
    (ExprV, ExprV),
    QueryErrorV,
> {
    if rs.len() != 2 {
        Err(QueryErrorV::InvalidMnmlExpression(op + " requires exactly two arguments"@))
    } else {
        match all_ok(rs) {
            Err(e) => Err(e),
            Ok(es) => Ok((es[0], es[1])),
        }
    }
}

/// Each element of an array converted on its own.
pub open spec fn spec_items(m: SemanticModel, d: Option<Seq<char>>, a: JsonV) -> Seq<
    Result<ExprV, QueryErrorV>,
>
    decreases a,
{
    match a {
        JsonV::Array(items) => Seq::new(
            items.len(),
            |i: int|
                if 0 <= i < items.len() {
                    spec_mnml_expr(m, d, items[i])
                } else {
                    Err(QueryErrorV::EmptyQuery)
                },
        ),
        _ => Seq::empty(),
    }
}

/// Each `case` branch converted on its own: `when` and `then` must both be present.
pub open spec fn spec_branches(m: SemanticModel, d: Option<Seq<char>>, a: JsonV) -> Seq<
    Result<(ExprV, ExprV), QueryErrorV>,
>
    decreases a,
{
    proof {
        lemma_get_decreases_all();
    }
    match a {
        JsonV::Array(bs) => Seq::new(
            bs.len(),
            |i: int|
                if 0 <= i < bs.len() {
                    match jv_get(bs[i], "when"@) {
                        None => Err(QueryErrorV::InvalidMnmlExpression("case branch missing when"@)),
                        Some(w) => match jv_get(bs[i], "then"@) {
                            None => Err(
                                QueryErrorV::InvalidMnmlExpression("case branch missing then"@),
                            ),
                            Some(t) => match spec_mnml_expr(m, d, w) {
                                Err(e) => Err(e),
                                Ok(x) => match spec_mnml_expr(m, d, t) {
                                    Err(e) => Err(e),
                                    Ok(y) => Ok((x, y)),
                                },
                            },
                        },
                    }
                } else {
                    Err(QueryErrorV::EmptyQuery)
                },
        ),
        _ => Seq::empty(),
    }
}

/// An MNML expression node compiled to an expression: the first of `current_date`/`today`,
/// `sub`, `col`, `lit`, `eq`, `ne`, `and`, `in` and `case` that the node holds decides.
pub open spec fn spec_mnml_expr(m: SemanticModel, d: Option<Seq<char>>, v: JsonV) -> Result<
    ExprV,
    QueryErrorV,
>
    decreases v,
{
    proof {
        lemma_get_decreases_all();
    }
    if jv_get(v, "current_date"@) is Some || jv_get(v, "today"@) is Some {
        Ok(ExprV::CurrentDate)
    } else if get_array(v, "sub"@) is Some {
        match spec_two("sub"@, spec_items(m, d, get_array(v, "sub"@)->0)) {
            Err(e) => Err(e),
            Ok((x, y)) => Ok(ExprV::Sub(Box::new(x), Box::new(y))),
        }
    } else if jv_get(v, "col"@) is Some && jv_get(v, "col"@)->0 is String {
        spec_resolve_col(m, d, jv_get(v, "col"@)->0->String_0)
    } else if jv_get(v, "lit"@) is Some {
        Ok(ExprV::Literal(spec_literal_from_json(jv_get(v, "lit"@)->0)))
    } else if get_array(v, "eq"@) is Some {
        match spec_two("eq"@, spec_items(m, d, get_array(v, "eq"@)->0)) {
            Err(e) => Err(e),
            Ok((x, y)) => Ok(ExprV::Eq(Box::new(x), Box::new(y))),
        }
    } else if get_array(v, "ne"@) is Some {
        match spec_two("ne"@, spec_items(m, d, get_array(v, "ne"@)->0)) {
            Err(e) => Err(e),
            Ok((x, y)) => Ok(ExprV::Ne(Box::new(x), Box::new(y))),
        }
    } else if get_array(v, "and"@) is Some {
        match all_ok(spec_items(m, d, get_array(v, "and"@)->0)) {
            Err(e) => Err(e),
            Ok(es) => Ok(spec_and(es)),
        }
    } else if jv_get(v, "in"@) is Some && jv_get(v, "in"@)->0 is Object {
        spec_in(m, d, jv_get(v, "in"@)->0)
    } else if get_array(v, "case"@) is Some {
        let bs = spec_branches(m, d, get_array(v, "case"@)->0);
        match all_ok(bs) {
            Err(e) => Err(e),
            Ok(pairs) => {
                let er = match jv_get(v, "else"@) {
                    Some(e) => spec_mnml_expr(m, d, e),
                    None => Ok(ExprV::Literal(LiteralV::Null)),
                };
                match er {
                    Err(e) => Err(e),
                    Ok(x) => Ok(ExprV::Case { when_then: pairs, else_expr: Box::new(x) }),
                }
            },
        }
    } else {
        Err(QueryErrorV::InvalidMnmlExpression("unsupported MNML expression node: "@ + spec_json_to_string(v)))
    }
}

/// An `in` node: a string `col` and an array of `values` are required.
pub open spec fn spec_in(m: SemanticModel, d: Option<Seq<char>>, o: JsonV) -> Result<ExprV, QueryErrorV> {
    match jv_get(o, "col"@) {
        Some(JsonV::String(c)) => match jv_get(o, "values"@) {
            Some(JsonV::Array(vals)) => match spec_resolve_col(m, d, c) {
                Err(e) => Err(e),
                Ok(x) => Ok(
                    ExprV::In {
                        expr: Box::new(x),
                        values: literals_of(vals),
                    },
                ),
            },
            _ => Err(QueryErrorV::InvalidMnmlExpression("in.values required"@)),
        },
        _ => Err(QueryErrorV::InvalidMnmlExpression("in.col required"@)),
    }
}

/// The view of a conversion's result.
pub open spec fn expr_result(r: Result<Expr, QueryError>) -> Result<ExprV, QueryErrorV> {
    match r {
        Ok(e) => Ok(e@),
        Err(e) => Err(e@),
    }
}

/// Converts each element of an array, stopping at the first error.
fn exprs_of(arr: &Vec<JsonValue>, ctx: &MnmlResolveCtx<'_>) -> (res: Result<Vec<Expr>, QueryError>)
    ensures
        match all_ok(
            spec_items(*ctx.model, opt_str_view(ctx.default_dataset), JsonV::Array(json_seq_view(arr@))),
        ) {
            Ok(es) => res matches Ok(r) && exprs_view(r@) == es,
            Err(e) => res matches Err(x) && x@ == e,
        },
    decreases JsonV::Array(json_seq_view(arr@)),
{
    let ghost a = JsonV::Array(json_seq_view(arr@));
    let ghost rs = spec_items(*ctx.model, opt_str_view(ctx.default_dataset), a);
    let ghost p = is_err::<ExprV, QueryErrorV>();
    let mut out: Vec<Expr> = Vec::new();
    let mut i: usize = 0;
    while i < arr.len()
        invariant
            a == JsonV::Array(json_seq_view(arr@)),
            rs == spec_items(*ctx.model, opt_str_view(ctx.default_dataset), a),
            p == is_err::<ExprV, QueryErrorV>(),
            i <= arr.len(),
            rs.len() == arr.len(),
            out.len() == i,
            forall|j: int| 0 <= j < i ==> !p(#[trigger] rs[j]),
            forall|j: int| 0 <= j < i ==> rs[j] == Ok::<ExprV, QueryErrorV>(#[trigger] out@[j]@),
        decreases arr.len() - i,
    {
        proof {
            assert(json_seq_view(arr@)[i as int] == arr@[i as int]@);
            assert(decreases_to!(a => json_seq_view(arr@)));
            assert(decreases_to!(json_seq_view(arr@) => json_seq_view(arr@)[i as int]));
        }
        match mnml_value_to_expr(&arr[i], ctx) {
            Ok(e) => {
                out.push(e);
            },
            Err(e) => {
                proof {
                    lemma_first_match_at(rs, p, i as int);
                }
                return Err(e);
            },
        }
        i = i + 1;
    }
    proof {
        lemma_first_match_none(rs, p);
        assert(first_match(rs, is_err::<ExprV, QueryErrorV>()) == -1);
        assert forall|j: int| 0 <= j < out.len() implies exprs_view(out@)[j] == all_ok(rs)->Ok_0[j] by {
            assert(rs[j] == Ok::<ExprV, QueryErrorV>(out@[j]@));
        }
        assert(exprs_view(out@) =~= all_ok(rs)->Ok_0);
    }
    Ok(out)
}

fn two_exprs(arr: &Vec<JsonValue>, op: &str, ctx: &MnmlResolveCtx<'_>) -> (res: Result<(Expr, Expr), QueryError>)
    ensures
        match spec_two(
            op@,
            spec_items(*ctx.model, opt_str_view(ctx.default_dataset), JsonV::Array(json_seq_view(arr@))),
        ) {
            Ok((x, y)) => res matches Ok((a, b)) && a@ == x && b@ == y,
            Err(e) => res matches Err(r) && r@ == e,
        },
    decreases JsonV::Array(json_seq_view(arr@)),
{
    let ghost a = JsonV::Array(json_seq_view(arr@));
    let ghost rs = spec_items(*ctx.model, opt_str_view(ctx.default_dataset), a);
    let ghost p = is_err::<ExprV, QueryErrorV>();
    if arr.len() != 2 {
        let mut msg = String::new();
        push_str(&mut msg, op);
        push_str(&mut msg, " requires exactly two arguments");
        return Err(QueryError::InvalidMnmlExpression(msg));
    }
    proof {
        assert(json_seq_view(arr@)[0] == arr@[0]@);
        assert(json_seq_view(arr@)[1] == arr@[1]@);
        assert(decreases_to!(a => json_seq_view(arr@)));
        assert(decreases_to!(json_seq_view(arr@) => json_seq_view(arr@)[0]));
        assert(decreases_to!(json_seq_view(arr@) => json_seq_view(arr@)[1]));
    }
    let x = match mnml_value_to_expr(&arr[0], ctx) {
        Ok(x) => x,
        Err(e) => {
            proof {
                lemma_first_match_at(rs, p, 0);
            }
            return Err(e);
        },
    };
    let y = match mnml_value_to_expr(&arr[1], ctx) {
        Ok(y) => y,
        Err(e) => {
            proof {
                lemma_first_match_at(rs, p, 1);
            }
            return Err(e);
        },
    };
    proof {
        lemma_first_match_none(rs, p);
    }
    Ok((x, y))
}

/// Converts each `case` branch, stopping at the first error.
fn branches_of(bs: &Vec<JsonValue>, ctx: &MnmlResolveCtx<'_>) -> (res: Result<Vec<(Expr, Expr)>, QueryError>)
    ensures
        match all_ok(
            spec_branches(*ctx.model, opt_str_view(ctx.default_dataset), JsonV::Array(json_seq_view(bs@))),
        ) {
            Ok(ps) => res matches Ok(r) && pairs_view(r@) == ps,
            Err(e) => res matches Err(x) && x@ == e,
        },
    decreases JsonV::Array(json_seq_view(bs@)),
{
    let ghost a = JsonV::Array(json_seq_view(bs@));
    let ghost rs = spec_branches(*ctx.model, opt_str_view(ctx.default_dataset), a);
    let ghost p = is_err::<(ExprV, ExprV), QueryErrorV>();
    let mut out: Vec<(Expr, Expr)> = Vec::new();
    let mut i: usize = 0;
    while i < bs.len()
        invariant
            a == JsonV::Array(json_seq_view(bs@)),
            rs == spec_branches(*ctx.model, opt_str_view(ctx.default_dataset), a),
            p == is_err::<(ExprV, ExprV), QueryErrorV>(),
            i <= bs.len(),
            rs.len() == bs.len(),
            out.len() == i,
            forall|j: int| 0 <= j < i ==> !p(#[trigger] rs[j]),
            forall|j: int|
                0 <= j < i ==> rs[j] == Ok::<(ExprV, ExprV), QueryErrorV>(
                    ((#[trigger] out@[j]).0@, out@[j].1@),
                ),
        decreases bs.len() - i,
    {
        proof {
            lemma_get_decreases_all();
            assert(json_seq_view(bs@)[i as int] == bs@[i as int]@);
            assert(decreases_to!(a => json_seq_view(bs@)));
            assert(decreases_to!(json_seq_view(bs@) => json_seq_view(bs@)[i as int]));
        }
        let b = &bs[i];
        let w = match b.get("when") {
            Some(w) => w,
            None => {
                proof {
                    lemma_first_match_at(rs, p, i as int);
                }
                return Err(QueryError::InvalidMnmlExpression(String::from_str("case branch missing when")));
            },
        };
        let t = match b.get("then") {
            Some(t) => t,
            None => {
                proof {
                    lemma_first_match_at(rs, p, i as int);
                }
                return Err(QueryError::InvalidMnmlExpression(String::from_str("case branch missing then")));
            },
        };
        let x = match mnml_value_to_expr(w, ctx) {
            Ok(x) => x,
            Err(e) => {
                proof {
                    lemma_first_match_at(rs, p, i as int);
                }
                return Err(e);
            },
        };
        let y = match mnml_value_to_expr(t, ctx) {
            Ok(y) => y,
            Err(e) => {
                proof {
                    lemma_first_match_at(rs, p, i as int);
                }
                return Err(e);
            },
        };
        out.push((x, y));
        i = i + 1;
    }
    proof {
        lemma_first_match_none(rs, p);
        assert(pairs_view(out@) =~= all_ok(rs)->Ok_0);
    }
    Ok(out)
}

fn in_expr(o: &JsonValue, ctx: &MnmlResolveCtx<'_>) -> (res: Result<Expr, QueryError>)
    ensures
        expr_result(res) == spec_in(*ctx.model, opt_str_view(ctx.default_dataset), o@),
{
    let col = match o.get("col") {
        Some(c) => match c.as_str() {
            Some(s) => s,
            None => {
                return Err(QueryError::InvalidMnmlExpression(String::from_str("in.col required")));
            },
        },
        None => {
            return Err(QueryError::InvalidMnmlExpression(String::from_str("in.col required")));
        },
    };
    let values = match o.get("values") {
        Some(x) => match x.as_array() {
            Some(a) => a,
            None => {
                return Err(QueryError::InvalidMnmlExpression(String::from_str("in.values required")));
            },
        },
        None => {
            return Err(QueryError::InvalidMnmlExpression(String::from_str("in.values required")));
        },
    };
    let e = match resolve_col(col, ctx) {
        Ok(e) => e,
        Err(err) => {
            return Err(err);
        },
    };
    let mut lits: Vec<Literal> = Vec::new();
    let mut i: usize = 0;
    while i < values.len()
        invariant
            i <= values.len(),
            lits.len() == i,
            forall|j: int|
                0 <= j < i ==> (#[trigger] lits@[j])@ == spec_literal_from_json(json_seq_view(values@)[j]),
        decreases values.len() - i,
    {
        proof {
            assert(json_seq_view(values@)[i as int] == values@[i as int]@);
        }
        lits.push(Literal::from_json(&values[i]));
        i = i + 1;
    }
    proof {
        let vals = json_seq_view(values@);
        assert(literals_view(lits@) =~= literals_of(vals));
    }
    Ok(Expr::In { expr: Box::new(e), values: lits })
}

pub fn mnml_value_to_expr(v: &JsonValue, ctx: &MnmlResolveCtx<'_>) -> (res: Result<Expr, QueryError>)
    ensures
        expr_result(res) == spec_mnml_expr(*ctx.model, opt_str_view(ctx.default_dataset), v@),
    decreases v@,
{
    proof {
        lemma_get_decreases_all();
    }
    if v.get("current_date").is_some() || v.get("today").is_some() {
        return Ok(Expr::CurrentDate);
    }
    if let Some(a) = v.get("sub") {
        if let Some(arr) = a.as_array() {
            return match two_exprs(arr, "sub", ctx) {
                Ok((x, y)) => Ok(Expr::Sub(Box::new(x), Box::new(y))),
                Err(e) => Err(e),
            };
        }
    }
    if let Some(c) = v.get("col") {
        if let Some(col) = c.as_str() {
            return resolve_col(col, ctx);
        }
    }
    if let Some(l) = v.get("lit") {
        return Ok(Expr::Literal(Literal::from_json(l)));
    }
    if let Some(a) = v.get("eq") {
        if let Some(arr) = a.as_array() {
            return match two_exprs(arr, "eq", ctx) {
                Ok((x, y)) => Ok(Expr::Eq(Box::new(x), Box::new(y))),
                Err(e) => Err(e),
            };
        }
    }
    if let Some(a) = v.get("ne") {
        if let Some(arr) = a.as_array() {
            return match two_exprs(arr, "ne", ctx) {
                Ok((x, y)) => Ok(Expr::Ne(Box::new(x), Box::new(y))),
                Err(e) => Err(e),
            };
        }
    }
    if let Some(a) = v.get("and") {
        if let Some(arr) = a.as_array() {
            return match exprs_of(arr, ctx) {
                Ok(es) => Ok(Expr::and(es)),
                Err(e) => Err(e),
            };
        }
    }
    if let Some(o) = v.get("in") {
        if o.as_object().is_some() {
            return in_expr(o, ctx);
        }
    }
    if let Some(a) = v.get("case") {
        if let Some(bs) = a.as_array() {
            let pairs = match branches_of(bs, ctx) {
                Ok(p) => p,
                Err(e) => {
                    return Err(e);
                },
            };
            let else_expr = match v.get("else") {
                Some(e) => match mnml_value_to_expr(e, ctx) {
                    Ok(x) => x,
                    Err(err) => {
                        return Err(err);
                    },
                },
                None => Expr::Literal(Literal::Null),
            };
            return Ok(Expr::Case { when_then: pairs, else_expr: Box::new(else_expr) });
        }
    }
    let mut msg = String::from_str("unsupported MNML expression node: ");
    let text = json_to_string(v);
    push_str(&mut msg, text.as_str());
    proof {
        reveal_strlit("unsupported MNML expression node: ");
    }
    Err(QueryError::InvalidMnmlExpression(msg))
}

/// ASCII upper-case letters lowered; every other character kept (`char::to_ascii_lowercase`).
pub open spec fn ascii_lower_char(c: char) -> char {
    if 'A' <= c && c <= 'Z' {
        ((c as u32) + 32) as char
    } else {
        c
    }
}

/// `s` with ASCII letters lowered (`str::to_ascii_lowercase`).
pub open spec fn ascii_lower(s: Seq<char>) -> Seq<char> {
    Seq::new(s.len(), |i: int| ascii_lower_char(s[i]))
}

fn lower_char(c: char) -> (r: char)
    ensures
        r == ascii_lower_char(c),
{
    if 'A' <= c && c <= 'Z' {
        let b: u8 = (c as u8) + 32;
        b as char
    } else {
        c
    }
}

pub(crate) fn to_ascii_lower(s: &str) -> (res: String)
    ensures
        res@ == ascii_lower(s@),
{
    let cs = str_chars(s);
    let mut out = String::new();
    let mut i: usize = 0;
    while i < cs.len()
        invariant
            cs@ == s@,
            i <= cs.len(),
            out@ == ascii_lower(cs@.take(i as int)),
        decreases cs.len() - i,
    {
        let c = lower_char(cs[i]);
        push_char(&mut out, c);
        proof {
            assert(ascii_lower(cs@.take(i + 1)) =~= ascii_lower(cs@.take(i as int)).push(c));
        }
        i = i + 1;
    }
    proof {
        assert(cs@.take(cs.len() as int) =~= cs@);
    }
    out
}

/// The aggregate a lower-case name stands for.
pub open spec fn agg_named(n: Seq<char>) -> Option<AggFunc> {
    if n == "count"@ {
        Some(AggFunc::Count)
    } else if n == "sum"@ {
        Some(AggFunc::Sum)
    } else if n == "avg"@ {
        Some(AggFunc::Avg)
    } else if n == "min"@ {
        Some(AggFunc::Min)
    } else if n == "max"@ {
        Some(AggFunc::Max)
    } else {
        None
    }
}

/// An aggregate name read without regard to ASCII case.
pub open spec fn spec_agg_name(s: Seq<char>) -> Result<AggFunc, QueryErrorV> {
    match agg_named(ascii_lower(s)) {
        Some(f) => Ok(f),
        None => Err(
            QueryErrorV::InvalidMnmlExpression("unknown aggregate "@ + spec_debug_str(ascii_lower(s))),
        ),
    }
}

fn parse_agg_name(s: &str) -> (res: Result<AggFunc, QueryError>)
    ensures
        match spec_agg_name(s@) {
            Ok(f) => res matches Ok(g) && g == f,
            Err(e) => res matches Err(x) && x@ == e,
        },
{
    let l = to_ascii_lower(s);
    if str_eq(l.as_str(), "count") {
        Ok(AggFunc::Count)
    } else if str_eq(l.as_str(), "sum") {
        Ok(AggFunc::Sum)
    } else if str_eq(l.as_str(), "avg") {
        Ok(AggFunc::Avg)
    } else if str_eq(l.as_str(), "min") {
        Ok(AggFunc::Min)
    } else if str_eq(l.as_str(), "max") {
        Ok(AggFunc::Max)
    } else {
        let mut msg = String::from_str("unknown aggregate ");
        let q = debug_str(l.as_str());
        push_str(&mut msg, q.as_str());
        proof {
            reveal_strlit("unknown aggregate ");
        }
        Err(QueryError::InvalidMnmlExpression(msg))
    }
}

/// The view of an optional conversion result.
pub open spec fn opt_expr_result(r: Result<Option<Expr>, QueryError>) -> Result<Option<ExprV>, QueryErrorV> {
    match r {
        Ok(Some(e)) => Ok(Some(e@)),
        Ok(None) => Ok(None),
        Err(e) => Err(e@),
    }
}

/// A field's MNML expression compiled with its dataset as the default; none without one.
pub open spec fn spec_field_to_expr(m: SemanticModel, field: Field, ds: Seq<char>) -> Result<
    Option<ExprV>,
    QueryErrorV,
> {
    match spec_field_json(field) {
        Err(e) => Err(e),
        Ok(None) => Ok(None),
        Ok(Some(j)) => match spec_mnml_expr(m, Some(ds), j) {
            Err(e) => Err(e),
            Ok(x) => Ok(Some(x)),
        },
    }
}

/// Convert MNML dialect or legacy extension on a [`Field`] when present; otherwise `None`.
pub fn field_to_expr(field: &Field, dataset: &str, model: &SemanticModel) -> (res: Result<
    Option<Expr>,
    QueryError,
>)
    ensures
        opt_expr_result(res) == spec_field_to_expr(*model, *field, dataset@),
{
    let expr_json = match field_mnml_expr_json(field) {
        Err(e) => {
            return Err(e);
        },
        Ok(None) => {
            return Ok(None);
        },
        Ok(Some(j)) => j,
    };
    let ctx = MnmlResolveCtx { model, default_dataset: Some(dataset) };
    match mnml_value_to_expr(&expr_json, &ctx) {
        Ok(e) => Ok(Some(e)),
        Err(e) => Err(e),
    }
}

/// A `dataset.field` reference resolved to the field's full expression: its MNML expression, else
/// its SQL as a column of the dataset.
pub open spec fn spec_resolve_field_ref(m: SemanticModel, d: Option<Seq<char>>, path: Seq<char>) -> Result<
    ExprV,
    QueryErrorV,
> {
    match spec_parse_col_path(path, d) {
        Err(e) => Err(e),
        Ok((ds, f)) => match spec_lookup_field(m, ds, f) {
            Err(e) => Err(e),
            Ok(field) => match spec_field_to_expr(m, field, ds) {
                Err(e) => Err(e),
                Ok(Some(x)) => Ok(x),
                Ok(None) => match spec_pick_sql(field.expression) {
                    None => Err(QueryErrorV::MissingExpressionSql),
                    Some(sql) => Ok(col_v(ds, sql)),
                },
            },
        },
    }
}

/// Resolve `dataset.field` to a full expression (MNML field body or simple column).
fn resolve_field_ref(path: &str, ctx: &MnmlResolveCtx<'_>) -> (res: Result<Expr, QueryError>)
    ensures
        expr_result(res) == spec_resolve_field_ref(*ctx.model, opt_str_view(ctx.default_dataset), path@),
{
    let (dataset, field_name) = match parse_col_path(path, ctx.default_dataset) {
        Ok(x) => x,
        Err(e) => {
            return Err(e);
        },
    };
    let field = match lookup_field(ctx.model, dataset.as_str(), field_name.as_str()) {
        Ok(f) => f,
        Err(e) => {
            return Err(e);
        },
    };
    match field_to_expr(field, dataset.as_str(), ctx.model) {
        Err(e) => {
            return Err(e);
        },
        Ok(Some(e)) => {
            return Ok(e);
        },
        Ok(None) => {},
    }
    match pick_expression_sql(&field.expression) {
        None => Err(QueryError::MissingExpressionSql),
        Some(sql) => Ok(Expr::column(dataset, sql)),
    }
}

/// An aggregate from its parts: the function named by `agg`, over the field `field` when given,
/// else over the expression `arg` when given, else over nothing.
pub open spec fn spec_def_expr(
    m: SemanticModel,
    d: Option<Seq<char>>,
    agg: Seq<char>,
    distinct: bool,
    field: Option<Seq<char>>,
    arg: Option<JsonV>,
) -> Result<ExprV, QueryErrorV> {
    match spec_agg_name(agg) {
        Err(e) => Err(e),
        Ok(func) => {
            let a: Result<Option<ExprV>, QueryErrorV> = match field {
                Some(p) => match spec_resolve_field_ref(m, d, p) {
                    Err(e) => Err(e),
                    Ok(x) => Ok(Some(x)),
                },
                None => match arg {
                    None => Ok(None),
                    Some(v) => match spec_mnml_expr(m, d, v) {
                        Err(e) => Err(e),
                        Ok(x) => Ok(Some(x)),
                    },
                },
            };
            match a {
                Err(e) => Err(e),
                Ok(None) => Ok(ExprV::Agg { func, distinct, arg: None }),
                Ok(Some(x)) => Ok(ExprV::Agg { func, distinct, arg: Some(Box::new(x)) }),
            }
        },
    }
}

/// Metric-definition JSON compiled to an aggregate (`metric expr: ...` when it does not read as
/// a definition).
pub open spec fn spec_metric_def_json_expr(m: SemanticModel, d: Option<Seq<char>>, j: JsonV) -> Result<
    ExprV,
    QueryErrorV,
> {
    if !metric_def_ok(j) {
        Err(QueryErrorV::InvalidMnmlExpression("metric expr: "@ + metric_def_error(j)))
    } else {
        spec_def_expr(
            m,
            d,
            jv_as_str(jv_get(j, "agg"@)->0)->0,
            match jv_get(j, "distinct"@) {
                Some(JsonV::Bool(b)) => b,
                _ => false,
            },
            match jv_get(j, "field"@) {
                Some(JsonV::String(s)) => Some(s),
                _ => None,
            },
            match jv_get(j, "arg"@) {
                None => None,
                Some(JsonV::Null) => None,
                Some(a) => Some(a),
            },
        )
    }
}

fn metric_def_to_expr(def: &MnmlMetricDef, ctx: &MnmlResolveCtx<'_>) -> (res: Result<Expr, QueryError>)
    ensures
        expr_result(res) == spec_def_expr(
            *ctx.model,
            opt_str_view(ctx.default_dataset),
            def.agg@,
            def.distinct,
            match &def.field {
                Some(f) => Some(f@),
                None => None,
            },
            match &def.arg {
                Some(a) => Some(a@),
                None => None,
            },
        ),
{
    let func = match parse_agg_name(def.agg.as_str()) {
        Ok(f) => f,
        Err(e) => {
            return Err(e);
        },
    };
    let arg = if let Some(field) = &def.field {
        match resolve_field_ref(field.as_str(), ctx) {
            Ok(e) => Some(Box::new(e)),
            Err(e) => {
                return Err(e);
            },
        }
    } else if let Some(v) = &def.arg {
        match mnml_value_to_expr(v, ctx) {
            Ok(e) => Some(Box::new(e)),
            Err(e) => {
                return Err(e);
            },
        }
    } else {
        None
    };
    Ok(Expr::Agg { func, distinct: def.distinct, arg })
}

fn decode_and_compile(j: &JsonValue, ctx: &MnmlResolveCtx<'_>) -> (res: Result<Expr, QueryError>)
    ensures
        expr_result(res) == spec_metric_def_json_expr(*ctx.model, opt_str_view(ctx.default_dataset), j@),
{
    let def = match decode_metric_def(j) {
        Ok(d) => d,
        Err(e) => {
            let mut msg = String::from_str("metric expr: ");
            push_str(&mut msg, e.as_str());
            proof {
                reveal_strlit("metric expr: ");
            }
            return Err(QueryError::InvalidMnmlExpression(msg));
        },
    };
    metric_def_to_expr(&def, ctx)
}

/// An envelope's expression compiled by its kind.
pub open spec fn spec_envelope_expr(m: SemanticModel, d: Option<Seq<char>>, kind: MnmlExpressionKind, e: JsonV) -> Result<
    ExprV,
    QueryErrorV,
> {
    match kind {
        MnmlExpressionKind::FieldExpr => spec_mnml_expr(m, d, e),
        MnmlExpressionKind::Metric => spec_metric_def_json_expr(m, d, e),
    }
}

/// Convert a field or metric MNML envelope to [`Expr`].
pub fn envelope_to_expr(env: &MnmlExpressionEnvelope, ctx: &MnmlResolveCtx<'_>) -> (res: Result<
    Expr,
    QueryError,
>)
    ensures
        expr_result(res) == spec_envelope_expr(
            *ctx.model,
            opt_str_view(ctx.default_dataset),
            env.kind,
            env.expr@,
        ),
{
    match env.kind {
        MnmlExpressionKind::FieldExpr => mnml_value_to_expr(&env.expr, ctx),
        MnmlExpressionKind::Metric => decode_and_compile(&env.expr, ctx),
    }
}

/// A metric's MNML definition compiled to an aggregate; none without one.
pub open spec fn spec_metric_to_expr(m: SemanticModel, x: Metric) -> Result<Option<ExprV>, QueryErrorV> {
    match spec_metric_json(x) {
        Err(e) => Err(e),
        Ok(None) => Ok(None),
        Ok(Some(j)) => match spec_metric_def_json_expr(m, None, j) {
            Err(e) => Err(e),
            Ok(e) => Ok(Some(e)),
        },
    }
}

/// Convert MNML dialect or legacy extension on a [`Metric`] when present; otherwise `None`.
pub fn metric_to_expr(metric: &Metric, model: &SemanticModel) -> (res: Result<Option<Expr>, QueryError>)
    ensures
        opt_expr_result(res) == spec_metric_to_expr(*model, *metric),
{
    let def_json = match metric_mnml_def_json(metric) {
        Err(e) => {
            return Err(e);
        },
        Ok(None) => {
            return Ok(None);
        },
        Ok(Some(j)) => j,
    };
    let ctx = MnmlResolveCtx { model, default_dataset: None };
    match decode_and_compile(&def_json, &ctx) {
        Ok(e) => Ok(Some(e)),
        Err(e) => Err(e),
    }
}


/// Two operands compiled in order: both expressions, else the first operand's error, else the
/// second's.
pub open spec fn both_operands(m: SemanticModel, d: Option<Seq<char>>, a: JsonV, b: JsonV) -> Result<
    (ExprV, ExprV),
    QueryErrorV,
> {
    match spec_mnml_expr(m, d, a) {
        Err(e) => Err(e),
        Ok(x) => match spec_mnml_expr(m, d, b) {
            Err(e) => Err(e),
            Ok(y) => Ok((x, y)),
        },
    }
}

/// The node `{k: val}` with a single member.
pub open spec fn single_member(k: Seq<char>, val: JsonV) -> JsonV {
    JsonV::Object(seq![(k, val)])
}

proof fn lemma_single_member_get(k: Seq<char>, val: JsonV, q: Seq<char>)
    ensures
        jv_get(single_member(k, val), q) == (if q == k {
            Some(val)
        } else {
            None::<JsonV>
        }),
{
    let ms = seq![(k, val)];
    if q == k {
        lemma_first_match_at(ms, key_is(q), 0);
    } else {
        lemma_first_match_none(ms, key_is(q));
    }
}

proof fn lemma_two_operands(m: SemanticModel, d: Option<Seq<char>>, op: Seq<char>, a: JsonV, b: JsonV)
    ensures
        spec_two(op, spec_items(m, d, JsonV::Array(seq![a, b]))) == both_operands(m, d, a, b),
{
    let rs = spec_items(m, d, JsonV::Array(seq![a, b]));
    assert(rs =~= seq![spec_mnml_expr(m, d, a), spec_mnml_expr(m, d, b)]);
    if rs[0] is Err {
        lemma_first_match_at(rs, is_err(), 0);
    } else if rs[1] is Err {
        lemma_first_match_at(rs, is_err(), 1);
    } else {
        lemma_first_match_none(rs, is_err());
    }
}

/// A comparison node compiles to the comparison its key names, over its two operands compiled
/// in order: `{"eq": [a, b]}` to `a = b`, `{"ne": [a, b]}` to `a <> b`, `{"sub": [a, b]}` to
/// `a - b`; where an operand fails, the first failure is the node's error.
pub proof fn law_mnml_comparison(m: SemanticModel, d: Option<Seq<char>>, a: JsonV, b: JsonV)
    ensures
        spec_mnml_expr(m, d, single_member("eq"@, JsonV::Array(seq![a, b]))) == (match both_operands(
            m,
            d,
            a,
            b,
        ) {
            Ok((lhs, rhs)) => Ok(ExprV::Eq(Box::new(lhs), Box::new(rhs))),
            Err(e) => Err(e),
        }),
        spec_mnml_expr(m, d, single_member("ne"@, JsonV::Array(seq![a, b]))) == (match both_operands(
            m,
            d,
            a,
            b,
        ) {
            Ok((lhs, rhs)) => Ok(ExprV::Ne(Box::new(lhs), Box::new(rhs))),
            Err(e) => Err(e),
        }),
        spec_mnml_expr(m, d, single_member("sub"@, JsonV::Array(seq![a, b]))) == (match both_operands(
            m,
            d,
            a,
            b,
        ) {
            Ok((lhs, rhs)) => Ok(ExprV::Sub(Box::new(lhs), Box::new(rhs))),
            Err(e) => Err(e),
        }),
{
    reveal_strlit("eq");
    reveal_strlit("ne");
    reveal_strlit("sub");
    reveal_strlit("current_date");
    reveal_strlit("today");
    reveal_strlit("col");
    reveal_strlit("lit");
    let arr = JsonV::Array(seq![a, b]);
    lemma_two_operands(m, d, "eq"@, a, b);
    lemma_two_operands(m, d, "ne"@, a, b);
    lemma_two_operands(m, d, "sub"@, a, b);
    let others = seq!["current_date"@, "today"@, "col"@, "lit"@];
    let ops = seq!["eq"@, "ne"@, "sub"@];
    assert forall|i: int, j: int| 0 <= i < 4 && 0 <= j < 3 implies #[trigger] others[i] != #[trigger] ops[j] by {
        assert(others[i][0] != ops[j][0]);
    }
    assert("eq"@ != "ne"@) by {
        assert("eq"@[0] != "ne"@[0]);
    }
    assert("eq"@ != "sub"@ && "ne"@ != "sub"@);
    assert forall|k: Seq<char>, q: Seq<char>| #![trigger jv_get(single_member(k, arr), q)]
        true implies jv_get(single_member(k, arr), q) == (if q == k {
            Some(arr)
        } else {
            None::<JsonV>
        }) by {
        lemma_single_member_get(k, arr, q);
    }
    assert(others[0] != "eq"@ && others[1] != "eq"@ && others[2] != "eq"@ && others[3] != "eq"@);
    assert(others[0] != "ne"@ && others[1] != "ne"@ && others[2] != "ne"@ && others[3] != "ne"@);
    assert(others[0] != "sub"@ && others[1] != "sub"@ && others[2] != "sub"@ && others[3] != "sub"@);
}

} // verus!
