//! MNML dialect bodies mapped to planner JSON (`agg`, `col`, `case`, ...).

use vstd::prelude::*;

use super::expression::{pick_mnml_dialect, spec_pick_mnml, Expression};
use super::mnml_expression::MnmlExpressionKind;
use crate::json::{
    jv_get, lemma_m_get_insert_other, lemma_m_get_insert_same, lemma_m_get_remove_other, m_find,
    m_get, m_insert, m_remove, json_members_view, obj_find, obj_insert, obj_remove, JsonV,
    JsonValue,
};

verus! {

/// Whether an MNML body has the shape of a metric (an `agg` or `aggregation` member).
pub open spec fn spec_is_metric_shape(v: JsonV) -> bool {
    jv_get(v, "agg"@) is Some || jv_get(v, "aggregation"@) is Some
}

fn is_metric_shape(v: &JsonValue) -> (res: bool)
    ensures
        res == spec_is_metric_shape(v@),
{
    v.get("agg").is_some() || v.get("aggregation").is_some()
}

/// The expression node of a field MNML body: its `expr` member when it has one and is not
/// metric-shaped, else the body itself.
pub open spec fn spec_field_expr_value(body: JsonV) -> JsonV {
    match jv_get(body, "expr"@) {
        Some(e) => if !spec_is_metric_shape(body) {
            e
        } else {
            body
        },
        None => body,
    }
}

/// JSON expression node for a field MNML dialect entry.
pub fn field_mnml_expr_value(body: &JsonValue) -> (res: JsonValue)
    ensures
        res@ == spec_field_expr_value(body@),
{
    if let Some(expr) = body.get("expr") {
        if !is_metric_shape(body) {
            return expr.clone();
        }
    }
    body.clone()
}

pub open spec fn not_mapping_msg() -> Seq<char> {
    "MNML metric dialect must be a mapping"@
}

pub open spec fn expr_without_agg_msg() -> Seq<char> {
    "MNML metric dialect: use `field` for a semantic field ref or `aggregation` with `expr`"@
}

pub open spec fn missing_agg_msg() -> Seq<char> {
    "MNML metric dialect requires `aggregation` or `agg`"@
}

/// Step one of the metric normalization: `aggregation` renamed to `agg` (an existing `agg` wins).
pub open spec fn metric_step_agg(m: Seq<(Seq<char>, JsonV)>) -> Seq<(Seq<char>, JsonV)> {
    match m_get(m, "aggregation"@) {
        Some(a) => {
            let r = m_remove(m, "aggregation"@);
            if m_find(r, "agg"@) >= 0 {
                r
            } else {
                m_insert(r, "agg"@, a)
            }
        },
        None => m,
    }
}

/// Step two: without `field`, an `expr` member becomes `arg` (which needs an `agg`).
pub open spec fn metric_step_expr(m: Seq<(Seq<char>, JsonV)>) -> Result<Seq<(Seq<char>, JsonV)>, Seq<char>> {
    if m_find(m, "field"@) < 0 {
        match m_get(m, "expr"@) {
            Some(e) => {
                let r = m_remove(m, "expr"@);
                if m_find(r, "agg"@) >= 0 {
                    Ok(m_insert(r, "arg"@, e))
                } else {
                    Err(expr_without_agg_msg())
                }
            },
            None => Ok(m),
        }
    } else {
        Ok(m)
    }
}

/// A metric MNML body normalized to metric-definition JSON (`agg`, `field` / `arg`), or the
/// message of why it cannot be.
pub open spec fn spec_metric_def_value(body: JsonV) -> Result<JsonV, Seq<char>> {
    match body {
        JsonV::Object(m0) => match metric_step_expr(metric_step_agg(m0)) {
            Ok(m) => if m_find(m, "agg"@) >= 0 {
                Ok(JsonV::Object(m))
            } else {
                Err(missing_agg_msg())
            },
            Err(e) => Err(e),
        },
        _ => Err(not_mapping_msg()),
    }
}

/// Normalize a metric MNML dialect body to metric-definition JSON (`agg`, `field` / `arg`).
pub fn metric_mnml_to_def_value(body: &JsonValue) -> (res: Result<JsonValue, String>)
    ensures
        match spec_metric_def_value(body@) {
            Ok(v) => res matches Ok(r) && r@ == v,
            Err(msg) => res matches Err(e) && e@ == msg,
        },
{
    let copy = body.clone();
    let mut obj = match copy {
        JsonValue::Object(m) => m,
        _ => {
            return Err(String::from_str("MNML metric dialect must be a mapping"));
        },
    };
    if let Some(agg) = obj_remove(&mut obj, "aggregation") {
        if obj_find(&obj, "agg").is_none() {
            obj_insert(&mut obj, String::from_str("agg"), agg);
        }
    }
    if obj_find(&obj, "field").is_none() {
        if let Some(expr) = obj_remove(&mut obj, "expr") {
            if obj_find(&obj, "agg").is_some() {
                obj_insert(&mut obj, String::from_str("arg"), expr);
            } else {
                return Err(
                    String::from_str(
                        "MNML metric dialect: use `field` for a semantic field ref or `aggregation` with `expr`",
                    ),
                );
            }
        }
    }
    if obj_find(&obj, "agg").is_none() {
        return Err(String::from_str("MNML metric dialect requires `aggregation` or `agg`"));
    }
    Ok(JsonValue::Object(obj))
}

/// The MNML JSON that an expression's MNML dialect entry gives for `kind`: none without such an
/// entry; the field expression node, or the normalized metric definition.
pub open spec fn spec_envelope_from_expression(e: Expression, kind: MnmlExpressionKind) -> Result<
    Option<JsonV>,
    Seq<char>,
> {
    match spec_pick_mnml(e) {
        None => Ok(None),
        Some(body) => match kind {
            MnmlExpressionKind::FieldExpr => Ok(Some(spec_field_expr_value(body))),
            MnmlExpressionKind::Metric => match spec_metric_def_value(body) {
                Ok(v) => Ok(Some(v)),
                Err(m) => Err(m),
            },
        },
    }
}

/// Build the MNML JSON from the `expression.dialects` MNML entry.
pub fn envelope_from_expression(expr: &Expression, kind: MnmlExpressionKind) -> (res: Result<
    Option<JsonValue>,
    String,
>)
    ensures
        match spec_envelope_from_expression(*expr, kind) {
            Ok(None) => res matches Ok(None),
            Ok(Some(v)) => res matches Ok(Some(r)) && r@ == v,
            Err(msg) => res matches Err(e) && e@ == msg,
        },
{
    let body = match pick_mnml_dialect(expr) {
        None => {
            return Ok(None);
        },
        Some(b) => b,
    };
    match kind {
        MnmlExpressionKind::FieldExpr => Ok(Some(field_mnml_expr_value(body))),
        MnmlExpressionKind::Metric => match metric_mnml_to_def_value(body) {
            Ok(v) => Ok(Some(v)),
            Err(e) => Err(e),
        },
    }
}

/// The `agg` member a metric body asks for: its own `agg`, else its `aggregation` alias.
pub open spec fn requested_agg(body: JsonV) -> Option<JsonV> {
    match jv_get(body, "agg"@) {
        Some(a) => Some(a),
        None => jv_get(body, "aggregation"@),
    }
}

/// Law of the metric normalization: `aggregation` is an alias of `agg` (an explicit `agg` wins),
/// a `field` reference is kept as it is, and without one an `expr` becomes the aggregate's `arg`.
/// Whenever the normalization succeeds its result is an object with an `agg` member.
pub proof fn law_metric_agg_alias(body: JsonV)
    requires
        spec_metric_def_value(body) is Ok,
    ensures
        spec_metric_def_value(body) matches Ok(JsonV::Object(m)) && {
            &&& m_get(m, "agg"@) is Some
            &&& m_get(m, "agg"@) == requested_agg(body)
            &&& m_get(m, "field"@) == jv_get(body, "field"@)
            &&& (jv_get(body, "field"@) is None && jv_get(body, "expr"@) is Some) ==> m_get(m, "arg"@)
                == jv_get(body, "expr"@)
        },
{
    reveal_strlit("agg");
    reveal_strlit("aggregation");
    reveal_strlit("field");
    reveal_strlit("expr");
    reveal_strlit("arg");
    assert("agg"@.len() == 3 && "arg"@.len() == 3 && "expr"@.len() == 4 && "field"@.len() == 5);
    assert("aggregation"@.len() == 11);
    assert("agg"@[1] != "arg"@[1] && "field"@ != "arg"@ && "expr"@ != "arg"@);
    let m0 = body->Object_0;
    let m1 = metric_step_agg(m0);
    // step one: `agg` as requested, other members untouched
    match m_get(m0, "aggregation"@) {
        Some(a) => {
            let r = m_remove(m0, "aggregation"@);
            lemma_m_get_remove_other(m0, "aggregation"@, "agg"@);
            lemma_m_get_remove_other(m0, "aggregation"@, "field"@);
            lemma_m_get_remove_other(m0, "aggregation"@, "expr"@);
            if m_find(r, "agg"@) < 0 {
                lemma_m_get_insert_same(r, "agg"@, a);
                lemma_m_get_insert_other(r, "agg"@, a, "field"@);
                lemma_m_get_insert_other(r, "agg"@, a, "expr"@);
            }
        },
        None => {},
    }
    assert(m_get(m1, "agg"@) == requested_agg(body));
    assert(m_get(m1, "field"@) == jv_get(body, "field"@));
    assert(m_get(m1, "expr"@) == jv_get(body, "expr"@));
    // step two: `expr` becomes `arg` when there is no `field`
    if m_find(m1, "field"@) < 0 {
        match m_get(m1, "expr"@) {
            Some(e) => {
                let r = m_remove(m1, "expr"@);
                lemma_m_get_remove_other(m1, "expr"@, "agg"@);
                lemma_m_get_remove_other(m1, "expr"@, "field"@);
                lemma_m_get_insert_same(r, "arg"@, e);
                lemma_m_get_insert_other(r, "arg"@, e, "agg"@);
                lemma_m_get_insert_other(r, "arg"@, e, "field"@);
            },
            None => {},
        }
    }
}

} // verus!
