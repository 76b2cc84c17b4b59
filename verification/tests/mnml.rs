//! MNML expressions: dialect bodies, expression extensions, storage payloads, and their
//! compilation into plan expressions.
#![allow(dead_code)]

use osi_substrait::json::{JsonNumber, JsonValue};
use osi_substrait::model::expression::dialect_entry;
use osi_substrait::model::mnml_expression::decode_metric_def;
use osi_substrait::model::{
    envelope_from_expression, metric_mnml_to_def_value, is_mnml_storage_json, parse_mnml_dataset_storage_extensions,
    parse_mnml_expression_extension, pick_mnml_dialect, CustomExtension, Dataset, Dialect,
    DialectBody, DialectExpression, Expression, Field, Metric, MnmlExpressionKind,
    MnmlStorageFormat, OsiDocument, Relationship, SemanticModel, Vendor,
};
use osi_substrait::plan::expr::{AggFunc, Expr, Literal};
use osi_substrait::plan::mnml::{
    mnml_value_to_expr,
    envelope_to_expr, field_to_expr, metric_to_expr, physical_column_for_field, MnmlResolveCtx,
};
use osi_substrait::resolver::QueryError;

fn to_json(v: &serde_json::Value) -> JsonValue {
    match v {
        serde_json::Value::Null => JsonValue::Null,
        serde_json::Value::Bool(b) => JsonValue::Bool(*b),
        serde_json::Value::Number(n) => JsonValue::Number(JsonNumber {
            as_i64: n.as_i64(),
            as_u64: n.as_u64(),
            f64_text: n.as_f64().map(|f| f.to_string()).unwrap_or_default(),
            text: n.to_string(),
        }),
        serde_json::Value::String(s) => JsonValue::String(s.clone()),
        serde_json::Value::Array(a) => JsonValue::Array(a.iter().map(to_json).collect()),
        serde_json::Value::Object(m) => {
            JsonValue::Object(m.iter().map(|(k, x)| (k.clone(), to_json(x))).collect())
        }
    }
}

fn json(s: &str) -> JsonValue {
    to_json(&serde_json::from_str::<serde_json::Value>(s).expect("test JSON"))
}

fn ext(vendor: Vendor, data: &str) -> CustomExtension {
    CustomExtension {
        vendor_name: vendor,
        data: data.to_string(),
    }
}

fn sql(e: &str) -> Expression {
    Expression { dialects: vec![DialectExpression::ansi_sql(e.to_string())] }
}

fn mnml(body: &str) -> Expression {
    Expression {
        dialects: vec![DialectExpression { dialect: Dialect::Mnml, body: DialectBody::Mnml(json(body)) }],
    }
}

fn field(name: &str, expression: Expression) -> Field {
    Field {
        name: name.to_string(),
        expression,
        dimension: None,
        label: None,
        description: None,
        ai_context: None,
        custom_extensions: vec![],
    }
}

fn dataset(name: &str, source: &str, fields: Vec<Field>, exts: Vec<CustomExtension>) -> Dataset {
    Dataset {
        name: name.to_string(),
        source: source.to_string(),
        primary_key: vec![],
        unique_keys: vec![],
        description: None,
        ai_context: None,
        fields,
        custom_extensions: exts,
    }
}

fn metric(name: &str, expression: Expression) -> Metric {
    Metric {
        name: name.to_string(),
        expression,
        description: None,
        ai_context: None,
        custom_extensions: vec![],
    }
}

fn rel(name: &str, from: &str, to: &str, from_columns: &[&str], to_columns: &[&str]) -> Relationship {
    Relationship {
        name: name.to_string(),
        from: from.to_string(),
        to: to.to_string(),
        from_columns: from_columns.iter().map(|c| c.to_string()).collect(),
        to_columns: to_columns.iter().map(|c| c.to_string()).collect(),
        ai_context: None,
        custom_extensions: vec![],
    }
}

fn model(name: &str, datasets: Vec<Dataset>, relationships: Vec<Relationship>, metrics: Vec<Metric>) -> SemanticModel {
    SemanticModel {
        name: name.to_string(),
        description: None,
        ai_context: None,
        datasets,
        relationships,
        metrics,
        custom_extensions: vec![],
    }
}

fn doc(models: Vec<SemanticModel>) -> OsiDocument {
    OsiDocument { version: "0.1.1".to_string(), dialects: None, vendors: None, semantic_model: models }
}

fn strings(v: &[&str]) -> Vec<String> {
    v.iter().map(|s| s.to_string()).collect()
}

/// The `minimal_model`: one dataset `fact` and a `row_count` metric.
fn minimal_doc() -> OsiDocument {
    doc(vec![model(
        "minimal_model",
        vec![dataset(
            "fact",
            "warehouse.public.fact_table",
            vec![field("id", sql("id")), field("day", sql("day")), field("month_days", sql("month_days"))],
            vec![],
        )],
        vec![],
        vec![metric("row_count", sql("COUNT(*)"))],
    )])
}

/// The `steelwheels` model: order facts joined to dates and customers.
fn steelwheels_doc() -> OsiDocument {
    doc(vec![model(
        "steelwheels",
        vec![
            dataset(
                "orderfact",
                "steelwheels.orderfact",
                vec![
                    field("order_status", sql("order_status")),
                    field("time_id", sql("time_id")),
                    field("customer_id", sql("customer_id")),
                    field("total_price", sql("total_price")),
                    field("quantity", sql("quantity")),
                ],
                vec![],
            ),
            dataset(
                "dates",
                "steelwheels.dates",
                vec![field("time_id", sql("time_id")), field("year_id", sql("year_id"))],
                vec![],
            ),
            dataset(
                "customers",
                "steelwheels.customers",
                vec![field("customer_id", sql("customer_id")), field("customer_name", sql("customer_name"))],
                vec![],
            ),
        ],
        vec![
            rel("orderfact_dates", "orderfact", "dates", &["time_id"], &["time_id"]),
            rel("orderfact_customers", "orderfact", "customers", &["customer_id"], &["customer_id"]),
        ],
        vec![
            metric("sales", sql("SUM(total_price)")),
            metric("quantity", sql("SUM(quantity)")),
            metric("order_count", sql("COUNT(*)")),
            metric("avg_price", sql("AVG(total_price)")),
            metric("max_price", sql("MAX(total_price)")),
        ],
    )])
}

/// Two datasets with no relationship between them.
fn disconnected_doc() -> OsiDocument {
    doc(vec![model(
        "disconnected_model",
        vec![
            dataset("alpha", "s.alpha", vec![field("id", sql("id"))], vec![]),
            dataset("beta", "s.beta", vec![field("id", sql("id"))], vec![]),
        ],
        vec![],
        vec![],
    )])
}

/// The `mnml_model`: MNML fields and metrics on `fact`.
fn mnml_doc() -> OsiDocument {
    doc(vec![model(
        "mnml_model",
        vec![dataset(
            "fact",
            "warehouse.public.fact",
            vec![
                field("id", mnml(r#"{"col":"id"}"#)),
                field("is_starter", mnml(r#"{"col":"is_starter"}"#)),
                field(
                    "starter_flag",
                    mnml(r#"{"case":[{"when":{"eq":[{"col":"is_starter"},{"lit":1}]},"then":{"lit":1}}],"else":{"lit":0}}"#),
                ),
            ],
            vec![],
        )],
        vec![],
        vec![
            metric("starters", mnml(r#"{"aggregation":"sum","field":"fact.starter_flag"}"#)),
            metric("row_count", mnml(r#"{"aggregation":"count"}"#)),
        ],
    )])
}

/// The `people_daily` model: a daily snapshot of people with MNML fields, metrics and storage.
fn people_daily_doc() -> OsiDocument {
    doc(vec![model(
        "people_daily",
        vec![dataset(
            "people_daily",
            "people_daily",
            vec![
                field("dt", mnml(r#"{"col":"dt"}"#)),
                field("year", mnml(r#"{"col":"year"}"#)),
                field("year_mm", mnml(r#"{"col":"year_mm"}"#)),
                field("month_desc", mnml(r#"{"col":"month_desc"}"#)),
                field("employment_type_name", mnml(r#"{"col":"employment_type_name"}"#)),
                field("employee_id", mnml(r#"{"col":"employee_id"}"#)),
                field("employment_start_date", mnml(r#"{"col":"employment_start_date"}"#)),
                field("is_starter", mnml(r#"{"col":"is_starter"}"#)),
                field("is_leaver", mnml(r#"{"col":"is_leaver"}"#)),
                field(
                    "starter_flag",
                    mnml(r#"{"case":[{"when":{"eq":[{"col":"is_starter"},{"lit":1}]},"then":{"lit":1}}],"else":{"lit":0}}"#),
                ),
                field(
                    "leaver_flag",
                    mnml(r#"{"case":[{"when":{"eq":[{"col":"is_leaver"},{"lit":1}]},"then":{"lit":1}}],"else":{"lit":0}}"#),
                ),
            ],
            vec![ext(
                Vendor::Mnml,
                r#"{"version":1,"format":"parquet","location":"people_daily/","partitioning":{"style":"hive","keys":["dt"]}}"#,
            )],
        )],
        vec![],
        vec![
            metric("starters", mnml(r#"{"aggregation":"sum","field":"people_daily.starter_flag"}"#)),
            metric("turnover", mnml(r#"{"aggregation":"sum","field":"people_daily.leaver_flag"}"#)),
            metric("num_days", mnml(r#"{"aggregation":"count","distinct":true,"field":"people_daily.dt"}"#)),
            metric(
                "num_employees",
                mnml(r#"{"aggregation":"count","distinct":true,"field":"people_daily.employee_id"}"#),
            ),
            metric(
                "tenure",
                mnml(r#"{"aggregation":"max","expr":{"sub":[{"current_date":true},{"col":"people_daily.employment_start_date"}]}}"#),
            ),
        ],
    )])
}

#[test]
fn mnml_count_distinct_field() {
    let doc = doc(vec![model(
        "m",
        vec![dataset("d", "s.t", vec![field("dt", mnml(r#"{"col":"dt"}"#))], vec![])],
        vec![],
        vec![metric("num_days", mnml(r#"{"aggregation":"count","distinct":true,"field":"d.dt"}"#))],
    )]);
    let model = &doc.semantic_model[0];
    let metric = model.metrics.iter().find(|m| m.name == "num_days").unwrap();
    let expr = metric_to_expr(metric, model).expect("metric").expect("some");
    let Expr::Agg { func, distinct, arg } = expr else {
        panic!("expected agg");
    };
    assert_eq!(func, AggFunc::Count);
    assert!(distinct);
    assert!(arg.is_some());
}

#[test]
fn mnml_max_date_subtract() {
    let doc = doc(vec![model(
        "m",
        vec![dataset(
            "d",
            "s.t",
            vec![field("employment_start_date", mnml(r#"{"col":"employment_start_date"}"#))],
            vec![],
        )],
        vec![],
        vec![metric(
            "tenure",
            mnml(r#"{"aggregation":"max","expr":{"sub":[{"current_date":true},{"col":"d.employment_start_date"}]}}"#),
        )],
    )]);
    let model = &doc.semantic_model[0];
    let metric = model.metrics.iter().find(|m| m.name == "tenure").unwrap();
    let expr = metric_to_expr(metric, model).expect("metric").expect("some");
    let Expr::Agg { func, arg, .. } = expr else {
        panic!("expected agg");
    };
    assert_eq!(func, AggFunc::Max);
    let Expr::Sub(left, right) = *arg.expect("arg") else {
        panic!("expected sub");
    };
    assert!(matches!(*left, Expr::CurrentDate));
    assert!(matches!(*right, Expr::Column(_)));
}

#[test]
fn mnml_metric_sum_field() {
    let doc = mnml_doc();
    let model = &doc.semantic_model[0];
    let metric = model.metrics.iter().find(|m| m.name == "starters").unwrap();
    let expr = metric_to_expr(metric, model).expect("metric").expect("some");
    let Expr::Agg { func, arg, .. } = expr else {
        panic!("expected agg");
    };
    assert_eq!(func, AggFunc::Sum);
    let arg = arg.expect("arg");
    let Expr::Case { when_then, .. } = *arg else {
        panic!("expected CASE from starter_flag field, got {arg:?}");
    };
    assert_eq!(when_then.len(), 1);
}

#[test]
fn metric_normalizes_aggregation_alias() {
    let m = metric("n", mnml(r#"{"aggregation":"sum","field":"d.x"}"#));
    let v = envelope_from_expression(&m.expression, MnmlExpressionKind::Metric)
        .expect("ok")
        .expect("some");
    let def = decode_metric_def(&v).expect("metric def");
    assert_eq!(def.agg, "sum");
    assert_eq!(def.field.as_deref(), Some("d.x"));
}

#[test]
fn parses_mnml_field_col_dialect() {
    let f = field("x", mnml(r#"{"col":"x"}"#));
    let body = pick_mnml_dialect(&f.expression).expect("mnml");
    assert_eq!(body.get("col").and_then(|c| c.as_str()), Some("x"));
}

#[test]
fn parses_mnml_metric_aggregation_and_expr() {
    let m = metric("total", mnml(r#"{"aggregation":"sum","field":"d.flag"}"#));
    let body = pick_mnml_dialect(&m.expression).expect("mnml");
    assert_eq!(body.get("aggregation").and_then(|a| a.as_str()), Some("sum"));
    assert_eq!(body.get("field").and_then(|f| f.as_str()), Some("d.flag"));
}

#[test]
fn distinguishes_storage_from_expression() {
    let storage = ext(Vendor::Mnml, r#"{"version":1,"format":"parquet","location":"x/"}"#);
    let expression = ext(Vendor::Mnml, r#"{"version":1,"kind":"metric","expr":{"agg":"count"}}"#);
    assert!(is_mnml_storage_json(&storage.data));
    assert!(!is_mnml_storage_json(&expression.data));
}

#[test]
fn parse_metric_envelope() {
    let exts = vec![ext(
        Vendor::Mnml,
        r#"{"version":1,"kind":"metric","expr":{"agg":"sum","field":"fact.id"}}"#,
    )];
    let env = parse_mnml_expression_extension(&exts).expect("parse").expect("env");
    assert_eq!(env.kind, MnmlExpressionKind::Metric);
}

#[test]
fn parse_mnml_dataset_storage_extensions_ignores_non_mnml() {
    let exts = vec![ext(Vendor::Common, "{}")];
    let parsed = parse_mnml_dataset_storage_extensions(&exts).expect("parse");
    assert!(parsed.is_empty());
}

#[test]
fn parse_mnml_dataset_storage_extensions_parses_payload() {
    let exts = vec![ext(
        Vendor::Mnml,
        r#"{"version":1,"format":"parquet","location":"people_daily/","partitioning":{"style":"hive","keys":["dt"]}}"#,
    )];
    let parsed = parse_mnml_dataset_storage_extensions(&exts).expect("parse");
    assert_eq!(parsed.len(), 1);
    assert_eq!(parsed[0].version, 1);
    assert_eq!(parsed[0].format, MnmlStorageFormat::Parquet);
    assert_eq!(parsed[0].location, "people_daily/");
}

#[test]
fn storage_payload_error_names_first_failure() {
    let exts = vec![ext(Vendor::Mnml, r#"{"version":1,"format":"csv","location":"x/"}"#)];
    match parse_mnml_dataset_storage_extensions(&exts) {
        Ok(_) => panic!("csv is not a storage format"),
        Err(e) => assert_eq!(e, "unknown variant, expected `parquet`"),
    }
}

#[test]
fn envelope_errors_are_reported_in_order() {
    let missing_kind = vec![ext(Vendor::Mnml, r#"{"version":1,"expr":{}}"#)];
    match parse_mnml_expression_extension(&missing_kind) {
        Ok(_) => panic!("an envelope needs a kind"),
        Err(e) => assert_eq!(e, "missing field `kind`"),
    }
    let bad_version = vec![ext(Vendor::Mnml, r#"{"version":-1,"kind":"metric","expr":{}}"#)];
    match parse_mnml_expression_extension(&bad_version) {
        Ok(_) => panic!("a version is unsigned"),
        Err(e) => assert_eq!(e, "invalid value: expected u32"),
    }
}

#[test]
fn field_envelope_compiles_against_default_dataset() {
    let doc = mnml_doc();
    let model = &doc.semantic_model[0];
    let exts = vec![ext(Vendor::Mnml, r#"{"version":1,"kind":"field_expr","expr":{"col":"is_starter"}}"#)];
    let env = parse_mnml_expression_extension(&exts).expect("parse").expect("env");
    let ctx = MnmlResolveCtx { model, default_dataset: Some("fact") };
    let e = envelope_to_expr(&env, &ctx).expect("expr");
    assert_eq!(e, Expr::column("fact".to_string(), "is_starter".to_string()));
    let no_default = MnmlResolveCtx { model, default_dataset: None };
    match envelope_to_expr(&env, &no_default) {
        Err(QueryError::InvalidFieldRef(m)) => assert_eq!(m, "unqualified col \"is_starter\""),
        other => panic!("expected an invalid reference, got {other:?}"),
    }
}

#[test]
fn unknown_aggregate_is_refused_case_insensitively() {
    let doc = mnml_doc();
    let model = &doc.semantic_model[0];
    let upper = metric("u", mnml(r#"{"aggregation":"SUM","field":"fact.id"}"#));
    let e = metric_to_expr(&upper, model).expect("metric").expect("some");
    assert!(matches!(e, Expr::Agg { func: AggFunc::Sum, .. }));
    let bad = metric("b", mnml(r#"{"aggregation":"Median","field":"fact.id"}"#));
    match metric_to_expr(&bad, model) {
        Err(QueryError::InvalidMnmlExpression(m)) => assert_eq!(m, "unknown aggregate \"median\""),
        other => panic!("expected an unknown aggregate, got {other:?}"),
    }
}

#[test]
fn physical_columns_of_fields() {
    let doc = mnml_doc();
    let model = &doc.semantic_model[0];
    assert_eq!(physical_column_for_field(model, "fact", "id").expect("column"), "id");
    match physical_column_for_field(model, "fact", "starter_flag") {
        Err(QueryError::InvalidMnmlExpression(m)) => {
            assert_eq!(m, "field fact.starter_flag is not a physical column")
        }
        other => panic!("expected a non-physical field, got {other:?}"),
    }
    match physical_column_for_field(model, "fact", "nope") {
        Err(QueryError::FieldNotFound(m)) => assert_eq!(m, "fact.nope"),
        other => panic!("expected a missing field, got {other:?}"),
    }
    match physical_column_for_field(model, "other", "id") {
        Err(QueryError::DatasetNotFound(m)) => assert_eq!(m, "other"),
        other => panic!("expected a missing dataset, got {other:?}"),
    }
}

#[test]
fn in_and_case_nodes_compile() {
    let doc = mnml_doc();
    let model = &doc.semantic_model[0];
    let f = field("flag", mnml(r#"{"in":{"col":"id","values":[1,"a",null]}}"#));
    let e = field_to_expr(&f, "fact", model).expect("expr").expect("some");
    let Expr::In { expr, values } = e else {
        panic!("expected IN");
    };
    assert_eq!(*expr, Expr::column("fact".to_string(), "id".to_string()));
    assert_eq!(values.len(), 3);
    let missing = field("flag", mnml(r#"{"in":{"values":[1]}}"#));
    match field_to_expr(&missing, "fact", model) {
        Err(QueryError::InvalidMnmlExpression(m)) => assert_eq!(m, "in.col required"),
        other => panic!("expected a missing column, got {other:?}"),
    }
    let branch = field("flag", mnml(r#"{"case":[{"when":{"lit":true}}]}"#));
    match field_to_expr(&branch, "fact", model) {
        Err(QueryError::InvalidMnmlExpression(m)) => assert_eq!(m, "case branch missing then"),
        other => panic!("expected a missing then, got {other:?}"),
    }
    let pair = field("flag", mnml(r#"{"eq":[{"lit":1}]}"#));
    match field_to_expr(&pair, "fact", model) {
        Err(QueryError::InvalidMnmlExpression(m)) => assert_eq!(m, "eq requires exactly two arguments"),
        other => panic!("expected an arity error, got {other:?}"),
    }
    let odd = field("flag", mnml(r#"{"frob":[1,2]}"#));
    match field_to_expr(&odd, "fact", model) {
        Err(QueryError::InvalidMnmlExpression(m)) => {
            assert_eq!(m, "unsupported MNML expression node: {\"frob\":[1,2]}")
        }
        other => panic!("expected an unsupported node, got {other:?}"),
    }
}

fn from_lib(v: &JsonValue) -> serde_json::Value {
    match v {
        JsonValue::Null => serde_json::Value::Null,
        JsonValue::Bool(b) => serde_json::Value::Bool(*b),
        JsonValue::Number(n) => serde_json::Value::Number(n.text.parse().expect("number")),
        JsonValue::String(s) => serde_json::Value::String(s.clone()),
        JsonValue::Array(a) => serde_json::Value::Array(a.iter().map(from_lib).collect()),
        JsonValue::Object(m) => {
            serde_json::Value::Object(m.iter().map(|(k, x)| (k.clone(), from_lib(x))).collect())
        }
    }
}

fn normalized(body: &str) -> Result<serde_json::Value, String> {
    metric_mnml_to_def_value(&json(body)).map(|v| from_lib(&v))
}

fn serde(s: &str) -> serde_json::Value {
    serde_json::from_str(s).expect("test JSON")
}

#[test]
fn explicit_agg_wins_over_aggregation_alias() {
    assert_eq!(
        normalized(r#"{"aggregation":"sum","agg":"max","field":"d.x"}"#),
        Ok(serde(r#"{"agg":"max","field":"d.x"}"#))
    );
}

#[test]
fn aggregation_alias_becomes_agg_and_expr_becomes_arg() {
    assert_eq!(
        normalized(r#"{"aggregation":"count","expr":{"col":"x"}}"#),
        Ok(serde(r#"{"agg":"count","arg":{"col":"x"}}"#))
    );
}

#[test]
fn expr_with_field_is_kept() {
    assert_eq!(
        normalized(r#"{"agg":"sum","field":"d.x","expr":{"col":"y"}}"#),
        Ok(serde(r#"{"agg":"sum","expr":{"col":"y"},"field":"d.x"}"#))
    );
}

#[test]
fn metric_normalization_errors() {
    assert_eq!(normalized(r#"[1]"#), Err("MNML metric dialect must be a mapping".to_string()));
    assert_eq!(
        normalized(r#"{"expr":{"col":"x"}}"#),
        Err("MNML metric dialect: use `field` for a semantic field ref or `aggregation` with `expr`".to_string())
    );
    assert_eq!(
        normalized(r#"{"field":"d.x"}"#),
        Err("MNML metric dialect requires `aggregation` or `agg`".to_string())
    );
}

fn entry_error(d: Dialect, expression: Option<&str>, keys: &[&str], body: Result<JsonValue, String>) -> String {
    match dialect_entry(d, expression.map(|e| e.to_string()), &strings(keys), body) {
        Ok(_) => panic!("expected the entry to be refused"),
        Err(e) => e,
    }
}

#[test]
fn dialect_entries_are_checked_by_dialect() {
    assert_eq!(
        entry_error(Dialect::Mnml, Some("x"), &["col"], Ok(json(r#"{"col":"x"}"#))),
        "MNML dialect must use structured keys (col, case, aggregation, …), not expression string"
    );
    assert_eq!(entry_error(Dialect::Mnml, None, &[], Ok(json("{}"))), "MNML dialect entry is empty");
    assert_eq!(entry_error(Dialect::Mnml, None, &["col"], Err("bad value".to_string())), "bad value");
    assert_eq!(
        entry_error(Dialect::AnsiSql, Some("a"), &["col", "x"], Ok(json("{}"))),
        "AnsiSql dialect must only use `expression` string, got extra keys: [\"col\", \"x\"]"
    );
    assert_eq!(
        entry_error(Dialect::Snowflake, None, &[], Ok(json("{}"))),
        "Snowflake dialect requires `expression`"
    );
    match dialect_entry(Dialect::Mnml, None, &strings(&["col"]), Ok(json(r#"{"col":"x"}"#))) {
        Ok(DialectExpression { dialect: Dialect::Mnml, body: DialectBody::Mnml(v) }) => {
            assert_eq!(from_lib(&v), serde(r#"{"col":"x"}"#))
        }
        _ => panic!("expected an MNML entry"),
    }
    match dialect_entry(Dialect::Databricks, Some("a + 1".to_string()), &vec![], Ok(json("{}"))) {
        Ok(DialectExpression { dialect: Dialect::Databricks, body: DialectBody::Sql(s) }) => assert_eq!(s, "a + 1"),
        _ => panic!("expected an SQL entry"),
    }
}

#[test]
fn invalid_extension_json_reports_the_parse_error() {
    let exts = vec![ext(Vendor::Mnml, "{oops")];
    let expected = serde_json::from_str::<serde_json::Value>("{oops").unwrap_err().to_string();
    match parse_mnml_expression_extension(&exts) {
        Ok(_) => panic!("invalid JSON must be refused"),
        Err(e) => assert_eq!(e, expected),
    }
    assert!(!is_mnml_storage_json("{oops"));
    assert!(is_mnml_storage_json(r#"{"format":"parquet"}"#));
}

#[test]
fn mnml_nodes_compile_or_are_refused() {
    let m = model("m", vec![dataset("d", "s.d", vec![field("x", sql("x"))], vec![])], vec![], vec![]);
    let ctx = MnmlResolveCtx { model: &m, default_dataset: Some("d") };
    assert_eq!(mnml_value_to_expr(&json(r#"{"lit":5}"#), &ctx).ok(), Some(Expr::Literal(Literal::Int64(5))));
    assert_eq!(mnml_value_to_expr(&json(r#"{"current_date":true,"lit":5}"#), &ctx).ok(), Some(Expr::CurrentDate));
    match mnml_value_to_expr(&json(r#"{"foo":1}"#), &ctx) {
        Err(QueryError::InvalidMnmlExpression(m)) => assert_eq!(m, "unsupported MNML expression node: {\"foo\":1}"),
        _ => panic!("expected an unsupported node"),
    }
    match mnml_value_to_expr(&json(r#"{"eq":[{"lit":1}]}"#), &ctx) {
        Err(QueryError::InvalidMnmlExpression(m)) => assert_eq!(m, "eq requires exactly two arguments"),
        _ => panic!("expected an arity error"),
    }
}
