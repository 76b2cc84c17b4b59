//! MNML structured expression payloads (`version` + `kind` + `expr`) and metric definitions.

use vstd::prelude::*;

use super::enums::Vendor;
use super::extensions::{ext_json, CustomExtension};
use crate::seqs::{lemma_filter_prefix, lemma_filter_step, lemma_take_all};
use crate::json::{
    json_reading, parse_json_text, spec_parse_json, first_unknown_key, jv_as_str, jv_get, jv_u32, keys_within, read_unit_variant, strs_view,
    unit_variant, JsonV, JsonValue,
};

verus! {

/// Parsed MNML expression envelope (`version` + `kind` + `expr`).
pub struct MnmlExpressionEnvelope {
    pub version: u32,
    pub kind: MnmlExpressionKind,
    pub expr: JsonValue,
}

#[derive(Clone, Copy, Debug, PartialEq, Eq, Structural)]
pub enum MnmlExpressionKind {
    FieldExpr,
    Metric,
}

/// Shorthand metric aggregate definition.
pub struct MnmlMetricDef {
    pub agg: String,
    pub distinct: bool,
    pub field: Option<String>,
    pub arg: Option<JsonValue>,
}

pub open spec fn envelope_keys() -> Seq<Seq<char>> {
    seq!["version"@, "kind"@, "expr"@]
}

pub open spec fn kind_names() -> Seq<Seq<char>> {
    seq!["field_expr"@, "metric"@]
}

/// Whether `v` reads as an [`MnmlExpressionEnvelope`] (object form, unknown keys refused).
pub open spec fn envelope_ok(v: JsonV) -> bool {
    &&& v matches JsonV::Object(m) && keys_within(m, envelope_keys())
    &&& jv_get(v, "version"@) matches Some(n) && jv_u32(n) is Some
    &&& jv_get(v, "kind"@) matches Some(k) && unit_variant(k, kind_names()) >= 0
    &&& jv_get(v, "expr"@) is Some
}

/// The kind named by a kind index.
pub open spec fn kind_of(i: int) -> MnmlExpressionKind {
    if i == 0 {
        MnmlExpressionKind::FieldExpr
    } else {
        MnmlExpressionKind::Metric
    }
}

/// The envelope that `v` reads as, when [`envelope_ok`] holds.
pub open spec fn envelope_matches(e: MnmlExpressionEnvelope, v: JsonV) -> bool {
    &&& Some(e.version) == jv_u32(jv_get(v, "version"@).unwrap())
    &&& e.kind == kind_of(unit_variant(jv_get(v, "kind"@).unwrap(), kind_names()))
    &&& Some(e.expr@) == jv_get(v, "expr"@)
}

/// Why `v` does not read as an envelope (the first check that fails).
pub open spec fn envelope_error(v: JsonV) -> Seq<char> {
    if !(v is Object) {
        "invalid type: expected struct MnmlExpressionEnvelope"@
    } else if !keys_within(v->Object_0, envelope_keys()) {
        "unknown field, expected one of `version`, `kind`, `expr`"@
    } else if jv_get(v, "version"@) is None {
        "missing field `version`"@
    } else if jv_u32(jv_get(v, "version"@)->0) is None {
        "invalid value: expected u32"@
    } else if jv_get(v, "kind"@) is None {
        "missing field `kind`"@
    } else if unit_variant(jv_get(v, "kind"@)->0, kind_names()) < 0 {
        "unknown variant, expected `field_expr` or `metric`"@
    } else {
        "missing field `expr`"@
    }
}

/// Reads an [`MnmlExpressionEnvelope`] from JSON (object form, unknown keys refused).
pub fn decode_envelope(v: &JsonValue) -> (res: Result<MnmlExpressionEnvelope, String>)
    ensures
        res is Ok <==> envelope_ok(v@),
        res matches Ok(e) ==> envelope_matches(e, v@),
        res matches Err(m) ==> m@ == envelope_error(v@),
{
    let members = match v.as_object() {
        Some(m) => m,
        None => {
            return Err(String::from_str("invalid type: expected struct MnmlExpressionEnvelope"));
        },
    };
    let allowed: [&str; 3] = ["version", "kind", "expr"];
    proof {
        assert(strs_view(allowed@) =~= envelope_keys());
    }
    if let Some(_) = first_unknown_key(members, &allowed) {
        return Err(String::from_str("unknown field, expected one of `version`, `kind`, `expr`"));
    }
    let version = match v.get("version") {
        None => {
            return Err(String::from_str("missing field `version`"));
        },
        Some(n) => match n.as_u32() {
            Some(x) => x,
            None => {
                return Err(String::from_str("invalid value: expected u32"));
            },
        },
    };
    let kind = match v.get("kind") {
        None => {
            return Err(String::from_str("missing field `kind`"));
        },
        Some(k) => {
            let names: [&str; 2] = ["field_expr", "metric"];
            proof {
                assert(strs_view(names@) =~= kind_names());
            }
            let i = read_unit_variant(k, &names);
            proof {
                crate::json::lemma_unit_variant_range(k@, kind_names());
            }
            match i {
                Some(0) => MnmlExpressionKind::FieldExpr,
                Some(1) => MnmlExpressionKind::Metric,
                _ => {
                    return Err(String::from_str("unknown variant, expected `field_expr` or `metric`"));
                },
            }
        },
    };
    let expr = match v.get("expr") {
        None => {
            return Err(String::from_str("missing field `expr`"));
        },
        Some(x) => x.clone(),
    };
    Ok(MnmlExpressionEnvelope { version, kind, expr })
}

pub open spec fn metric_def_keys() -> Seq<Seq<char>> {
    seq!["agg"@, "distinct"@, "field"@, "arg"@]
}

/// Whether `v` reads as an [`MnmlMetricDef`]: an object with only `agg`, `distinct`, `field`
/// and `arg`, whose `agg` is a string, whose `distinct` (when present) is a boolean and whose
/// `field` (when present) is a string or `null`.
pub open spec fn metric_def_ok(v: JsonV) -> bool {
    &&& v matches JsonV::Object(m) && keys_within(m, metric_def_keys())
    &&& jv_get(v, "agg"@) matches Some(a) && a is String
    &&& jv_get(v, "distinct"@) matches Some(d) ==> d is Bool
    &&& jv_get(v, "field"@) matches Some(f) ==> (f is String || f == JsonV::Null)
}

/// The metric definition that `v` reads as, when [`metric_def_ok`] holds.
pub open spec fn metric_def_matches(d: MnmlMetricDef, v: JsonV) -> bool {
    &&& Some(d.agg@) == jv_as_str(jv_get(v, "agg"@).unwrap())
    &&& d.distinct == match jv_get(v, "distinct"@) {
        Some(JsonV::Bool(b)) => b,
        _ => false,
    }
    &&& match jv_get(v, "field"@) {
        Some(JsonV::String(s)) => d.field matches Some(f) && f@ == s,
        _ => d.field is None,
    }
    &&& match jv_get(v, "arg"@) {
        None => d.arg is None,
        Some(JsonV::Null) => d.arg is None,
        Some(a) => d.arg matches Some(x) && x@ == a,
    }
}

/// Why `v` does not read as a metric definition (the first check that fails).
pub open spec fn metric_def_error(v: JsonV) -> Seq<char> {
    if !(v is Object) {
        "invalid type: expected struct MnmlMetricDef"@
    } else if !keys_within(v->Object_0, metric_def_keys()) {
        "unknown field, expected one of `agg`, `distinct`, `field`, `arg`"@
    } else if jv_get(v, "agg"@) is None {
        "missing field `agg`"@
    } else if !(jv_get(v, "agg"@)->0 is String) {
        "invalid type: expected a string"@
    } else if jv_get(v, "distinct"@) matches Some(d) && !(d is Bool) {
        "invalid type: expected a boolean"@
    } else {
        "invalid type: expected a string"@
    }
}

/// Reads an [`MnmlMetricDef`] from JSON (object form, unknown keys refused).
pub fn decode_metric_def(v: &JsonValue) -> (res: Result<MnmlMetricDef, String>)
    ensures
        res is Ok <==> metric_def_ok(v@),
        res matches Ok(d) ==> metric_def_matches(d, v@),
        res matches Err(m) ==> m@ == metric_def_error(v@),
{
    let members = match v.as_object() {
        Some(m) => m,
        None => {
            return Err(String::from_str("invalid type: expected struct MnmlMetricDef"));
        },
    };
    let allowed: [&str; 4] = ["agg", "distinct", "field", "arg"];
    proof {
        assert(strs_view(allowed@) =~= metric_def_keys());
    }
    if let Some(_) = first_unknown_key(members, &allowed) {
        return Err(
            String::from_str("unknown field, expected one of `agg`, `distinct`, `field`, `arg`"),
        );
    }
    let agg = match v.get("agg") {
        None => {
            return Err(String::from_str("missing field `agg`"));
        },
        Some(a) => match a.as_str() {
            Some(s) => String::from_str(s),
            None => {
                return Err(String::from_str("invalid type: expected a string"));
            },
        },
    };
    let distinct = match v.get("distinct") {
        None => false,
        Some(JsonValue::Bool(b)) => *b,
        Some(_) => {
            return Err(String::from_str("invalid type: expected a boolean"));
        },
    };
    let field = match v.get("field") {
        None => None,
        Some(JsonValue::Null) => None,
        Some(JsonValue::String(s)) => Some(s.clone()),
        Some(_) => {
            return Err(String::from_str("invalid type: expected a string"));
        },
    };
    let arg = match v.get("arg") {
        None => None,
        Some(JsonValue::Null) => None,
        Some(a) => Some(a.clone()),
    };
    Ok(MnmlMetricDef { agg, distinct, field, arg })
}

/// Whether JSON reads as MNML dataset storage rather than an expression: it is valid JSON, has a
/// `format` member and no `kind` member.
pub open spec fn spec_is_storage(v: Option<JsonV>) -> bool {
    v matches Some(j) && jv_get(j, "format"@) is Some && jv_get(j, "kind"@) is None
}

/// The JSON reading of a parse outcome (`None` for a parse error).
pub open spec fn parsed_view(data: Result<JsonValue, String>) -> Option<JsonV> {
    match data {
        Ok(v) => Some(v@),
        Err(_) => None,
    }
}

/// Whether a parse outcome is storage-shaped JSON.
pub(crate) fn is_storage_value(data: &Result<JsonValue, String>) -> (res: bool)
    ensures
        res == spec_is_storage(parsed_view(*data)),
{
    match data {
        Err(_) => false,
        Ok(v) => v.get("format").is_some() && v.get("kind").is_none(),
    }
}

/// Returns true when the extension data looks like MNML dataset storage (not an expression).
pub fn is_mnml_storage_json(data: &str) -> (res: bool)
    ensures
        res == spec_is_storage(json_reading(data@)),
{
    let parsed = parse_json_text(data);
    is_storage_value(&parsed)
}

/// The extensions that hold MNML expressions: vendor `MNML` and not storage-shaped.
pub open spec fn expr_exts(exts: Seq<CustomExtension>) -> Seq<CustomExtension> {
    exts.filter(is_expr_ext())
}

/// The predicate "vendor `MNML` and not storage-shaped".
pub open spec fn is_expr_ext() -> spec_fn(CustomExtension) -> bool {
    |e: CustomExtension| e.vendor_name == Vendor::Mnml && !spec_is_storage(ext_json(e))
}

/// Whether an extension's data reads as an envelope.
pub open spec fn ext_envelope_ok(e: CustomExtension) -> bool {
    ext_json(e) matches Some(j) && envelope_ok(j)
}

/// Why an extension's data does not read as an envelope.
pub open spec fn ext_envelope_error(e: CustomExtension) -> Seq<char> {
    match spec_parse_json(e.data@) {
        Err(m) => m,
        Ok(j) => envelope_error(j),
    }
}

/// The index of the first MNML expression extension that does not read as an envelope.
pub open spec fn first_bad_expr_ext(exts: Seq<CustomExtension>) -> int {
    crate::seqs::first_match(expr_exts(exts), is_bad_envelope())
}

/// The predicate "does not read as an envelope".
pub open spec fn is_bad_envelope() -> spec_fn(CustomExtension) -> bool {
    |e: CustomExtension| !ext_envelope_ok(e)
}

/// Parse the single MNML expression extension on a field or metric, if present: every MNML
/// expression extension must read as an envelope; the first one is returned.
pub fn parse_mnml_expression_extension(extensions: &[CustomExtension]) -> (res: Result<
    Option<MnmlExpressionEnvelope>,
    String,
>)
    ensures
        res is Ok <==> forall|i: int|
            0 <= i < expr_exts(extensions@).len() ==> ext_envelope_ok(#[trigger] expr_exts(extensions@)[i]),
        res matches Ok(None) ==> expr_exts(extensions@).len() == 0,
        res matches Ok(Some(e)) ==> expr_exts(extensions@).len() > 0 && envelope_matches(
            e,
            ext_json(expr_exts(extensions@)[0])->0,
        ),
        res matches Err(m) ==> first_bad_expr_ext(extensions@) >= 0 && m@ == ext_envelope_error(
            expr_exts(extensions@)[first_bad_expr_ext(extensions@)],
        ),
{
    let ghost bad = is_bad_envelope();
    let ghost p = is_expr_ext();
    let mut found: Option<MnmlExpressionEnvelope> = None;
    let mut i: usize = 0;
    while i < extensions.len()
        invariant
            p == is_expr_ext(),
            bad == is_bad_envelope(),
            i <= extensions@.len(),
            forall|j: int|
                0 <= j < extensions@.take(i as int).filter(p).len() ==> ext_envelope_ok(
                    #[trigger] extensions@.take(i as int).filter(p)[j],
                ),
            found is None <==> extensions@.take(i as int).filter(p).len() == 0,
            found matches Some(e) ==> envelope_matches(
                e,
                ext_json(extensions@.take(i as int).filter(p)[0])->0,
            ),
        decreases extensions@.len() - i,
    {
        let ghost prev = extensions@.take(i as int).filter(p);
        proof {
            lemma_filter_step(extensions@, p, i as int);
            lemma_filter_prefix(extensions@, p, i + 1);
        }
        let e = &extensions[i];
        let data = parse_json_text(e.data.as_str());
        if e.vendor_name == Vendor::Mnml && !is_storage_value(&data) {
            proof {
                assert(p(*e));
                assert(extensions@.take(i + 1).filter(p)[prev.len() as int] == *e);
                assert forall|j: int| 0 <= j < prev.len() implies !bad(
                    #[trigger] extensions@.filter(p)[j],
                ) by {
                    assert(extensions@.take(i + 1).filter(p)[j] == prev[j]);
                    assert(ext_envelope_ok(prev[j]));
                }
            }
            let parsed = match data {
                Err(msg) => {
                    proof {
                        assert(extensions@.filter(p)[prev.len() as int] == *e);
                        assert(bad(*e));
                        crate::seqs::lemma_first_match_at(extensions@.filter(p), bad, prev.len() as int);
                    }
                    return Err(msg);
                },
                Ok(j) => match decode_envelope(&j) {
                    Ok(x) => x,
                    Err(err) => {
                        proof {
                            assert(extensions@.filter(p)[prev.len() as int] == *e);
                            assert(bad(*e));
                            crate::seqs::lemma_first_match_at(extensions@.filter(p), bad, prev.len() as int);
                        }
                        return Err(err);
                    },
                },
            };
            if found.is_none() {
                found = Some(parsed);
            }
        }
        i = i + 1;
    }
    proof {
        lemma_take_all(extensions@);
    }
    Ok(found)
}

} // verus!
