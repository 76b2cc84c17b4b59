//! Document validation: version, unique names, references, expressions and MNML payloads.
#![allow(dead_code)]

use osi_substrait::error::Error;
use osi_substrait::json::{JsonNumber, JsonValue};
use osi_substrait::model::{
    CustomExtension, Dataset, Dialect, DialectBody, DialectExpression, Expression, Field, Metric,
    OsiDocument, Relationship, SemanticModel, Vendor,
};
use osi_substrait::validate::validate;

fn to_json(v: &serde_json::Value) -> JsonValue {
    match v {
        serde_json::Value::Null => JsonValue::Null,
        serde_json::Value::Bool(b) => JsonValue::Bool(*b),
        serde_json::Value::Number(n) => JsonValue::Number(JsonNumber {
            as_i64: n.as_i64(),
            as_u64: n.as_u64(),
            f64_text: n.as_f64().map(|f| f.to_string()).unwrap_or_default(),
            text: n.to_string(),
        }),
        serde_json::Value::String(s) => JsonValue::String(s.clone()),
        serde_json::Value::Array(a) => JsonValue::Array(a.iter().map(to_json).collect()),
        serde_json::Value::Object(m) => {
            JsonValue::Object(m.iter().map(|(k, x)| (k.clone(), to_json(x))).collect())
        }
    }
}

fn json(s: &str) -> JsonValue {
    to_json(&serde_json::from_str::<serde_json::Value>(s).expect("test JSON"))
}

fn ext(vendor: Vendor, data: &str) -> CustomExtension {
    CustomExtension {
        vendor_name: vendor,
        data: data.to_string(),
    }
}

fn sql(e: &str) -> Expression {
    Expression { dialects: vec![DialectExpression::ansi_sql(e.to_string())] }
}

fn mnml(body: &str) -> Expression {
    Expression {
        dialects: vec![DialectExpression { dialect: Dialect::Mnml, body: DialectBody::Mnml(json(body)) }],
    }
}

fn field(name: &str, expression: Expression) -> Field {
    Field {
        name: name.to_string(),
        expression,
        dimension: None,
        label: None,
        description: None,
        ai_context: None,
        custom_extensions: vec![],
    }
}

fn dataset(name: &str, source: &str, fields: Vec<Field>, exts: Vec<CustomExtension>) -> Dataset {
    Dataset {
        name: name.to_string(),
        source: source.to_string(),
        primary_key: vec![],
        unique_keys: vec![],
        description: None,
        ai_context: None,
        fields,
        custom_extensions: exts,
    }
}

fn metric(name: &str, expression: Expression) -> Metric {
    Metric {
        name: name.to_string(),
        expression,
        description: None,
        ai_context: None,
        custom_extensions: vec![],
    }
}

fn rel(name: &str, from: &str, to: &str, from_columns: &[&str], to_columns: &[&str]) -> Relationship {
    Relationship {
        name: name.to_string(),
        from: from.to_string(),
        to: to.to_string(),
        from_columns: from_columns.iter().map(|c| c.to_string()).collect(),
        to_columns: to_columns.iter().map(|c| c.to_string()).collect(),
        ai_context: None,
        custom_extensions: vec![],
    }
}

fn model(name: &str, datasets: Vec<Dataset>, relationships: Vec<Relationship>, metrics: Vec<Metric>) -> SemanticModel {
    SemanticModel {
        name: name.to_string(),
        description: None,
        ai_context: None,
        datasets,
        relationships,
        metrics,
        custom_extensions: vec![],
    }
}

fn doc(models: Vec<SemanticModel>) -> OsiDocument {
    OsiDocument { version: "0.1.1".to_string(), dialects: None, vendors: None, semantic_model: models }
}

fn strings(v: &[&str]) -> Vec<String> {
    v.iter().map(|s| s.to_string()).collect()
}

/// The `minimal_model`: one dataset `fact` and a `row_count` metric.
fn minimal_doc() -> OsiDocument {
    doc(vec![model(
        "minimal_model",
        vec![dataset(
            "fact",
            "warehouse.public.fact_table",
            vec![field("id", sql("id")), field("day", sql("day")), field("month_days", sql("month_days"))],
            vec![],
        )],
        vec![],
        vec![metric("row_count", sql("COUNT(*)"))],
    )])
}

/// The `steelwheels` model: order facts joined to dates and customers.
fn steelwheels_doc() -> OsiDocument {
    doc(vec![model(
        "steelwheels",
        vec![
            dataset(
                "orderfact",
                "steelwheels.orderfact",
                vec![
                    field("order_status", sql("order_status")),
                    field("time_id", sql("time_id")),
                    field("customer_id", sql("customer_id")),
                    field("total_price", sql("total_price")),
                    field("quantity", sql("quantity")),
                ],
                vec![],
            ),
            dataset(
                "dates",
                "steelwheels.dates",
                vec![field("time_id", sql("time_id")), field("year_id", sql("year_id"))],
                vec![],
            ),
            dataset(
                "customers",
                "steelwheels.customers",
                vec![field("customer_id", sql("customer_id")), field("customer_name", sql("customer_name"))],
                vec![],
            ),
        ],
        vec![
            rel("orderfact_dates", "orderfact", "dates", &["time_id"], &["time_id"]),
            rel("orderfact_customers", "orderfact", "customers", &["customer_id"], &["customer_id"]),
        ],
        vec![
            metric("sales", sql("SUM(total_price)")),
            metric("quantity", sql("SUM(quantity)")),
            metric("order_count", sql("COUNT(*)")),
            metric("avg_price", sql("AVG(total_price)")),
            metric("max_price", sql("MAX(total_price)")),
        ],
    )])
}

/// Two datasets with no relationship between them.
fn disconnected_doc() -> OsiDocument {
    doc(vec![model(
        "disconnected_model",
        vec![
            dataset("alpha", "s.alpha", vec![field("id", sql("id"))], vec![]),
            dataset("beta", "s.beta", vec![field("id", sql("id"))], vec![]),
        ],
        vec![],
        vec![],
    )])
}

/// The `mnml_model`: MNML fields and metrics on `fact`.
fn mnml_doc() -> OsiDocument {
    doc(vec![model(
        "mnml_model",
        vec![dataset(
            "fact",
            "warehouse.public.fact",
            vec![
                field("id", mnml(r#"{"col":"id"}"#)),
                field("is_starter", mnml(r#"{"col":"is_starter"}"#)),
                field(
                    "starter_flag",
                    mnml(r#"{"case":[{"when":{"eq":[{"col":"is_starter"},{"lit":1}]},"then":{"lit":1}}],"else":{"lit":0}}"#),
                ),
            ],
            vec![],
        )],
        vec![],
        vec![
            metric("starters", mnml(r#"{"aggregation":"sum","field":"fact.starter_flag"}"#)),
            metric("row_count", mnml(r#"{"aggregation":"count"}"#)),
        ],
    )])
}

/// The `people_daily` model: a daily snapshot of people with MNML fields, metrics and storage.
fn people_daily_doc() -> OsiDocument {
    doc(vec![model(
        "people_daily",
        vec![dataset(
            "people_daily",
            "people_daily",
            vec![
                field("dt", mnml(r#"{"col":"dt"}"#)),
                field("year", mnml(r#"{"col":"year"}"#)),
                field("year_mm", mnml(r#"{"col":"year_mm"}"#)),
                field("month_desc", mnml(r#"{"col":"month_desc"}"#)),
                field("employment_type_name", mnml(r#"{"col":"employment_type_name"}"#)),
                field("employee_id", mnml(r#"{"col":"employee_id"}"#)),
                field("employment_start_date", mnml(r#"{"col":"employment_start_date"}"#)),
                field("is_starter", mnml(r#"{"col":"is_starter"}"#)),
                field("is_leaver", mnml(r#"{"col":"is_leaver"}"#)),
                field(
                    "starter_flag",
                    mnml(r#"{"case":[{"when":{"eq":[{"col":"is_starter"},{"lit":1}]},"then":{"lit":1}}],"else":{"lit":0}}"#),
                ),
                field(
                    "leaver_flag",
                    mnml(r#"{"case":[{"when":{"eq":[{"col":"is_leaver"},{"lit":1}]},"then":{"lit":1}}],"else":{"lit":0}}"#),
                ),
            ],
            vec![ext(
                Vendor::Mnml,
                r#"{"version":1,"format":"parquet","location":"people_daily/","partitioning":{"style":"hive","keys":["dt"]}}"#,
            )],
        )],
        vec![],
        vec![
            metric("starters", mnml(r#"{"aggregation":"sum","field":"people_daily.starter_flag"}"#)),
            metric("turnover", mnml(r#"{"aggregation":"sum","field":"people_daily.leaver_flag"}"#)),
            metric("num_days", mnml(r#"{"aggregation":"count","distinct":true,"field":"people_daily.dt"}"#)),
            metric(
                "num_employees",
                mnml(r#"{"aggregation":"count","distinct":true,"field":"people_daily.employee_id"}"#),
            ),
            metric(
                "tenure",
                mnml(r#"{"aggregation":"max","expr":{"sub":[{"current_date":true},{"col":"people_daily.employment_start_date"}]}}"#),
            ),
        ],
    )])
}

fn people(exts: Vec<CustomExtension>) -> OsiDocument {
    doc(vec![model(
        "m",
        vec![dataset("people", "warehouse.public.people", vec![field("id", sql("id"))], exts)],
        vec![],
        vec![],
    )])
}

fn message(d: &OsiDocument) -> String {
    match validate(d) {
        Ok(()) => panic!("must fail"),
        Err(e) => e.to_string(),
    }
}

fn issues(d: &OsiDocument) -> Vec<String> {
    match validate(d) {
        Ok(()) => vec![],
        Err(Error::Validation(v)) => v,
        Err(e) => panic!("unexpected error {e:?}"),
    }
}

#[test]
fn validate_allows_valid_mnml_storage_extension() {
    let d = people(vec![ext(
        Vendor::Mnml,
        r#"{"version":1,"format":"parquet","location":"people_daily/","partitioning":{"style":"hive","keys":["dt"]}}"#,
    )]);
    validate(&d).expect("validate");
}

#[test]
fn validate_rejects_duplicate_mnml_storage_extensions() {
    let d = people(vec![
        ext(Vendor::Mnml, r#"{"version":1,"format":"parquet","location":"a/"}"#),
        ext(Vendor::Mnml, r#"{"version":1,"format":"parquet","location":"b/"}"#),
    ]);
    let msg = message(&d);
    assert!(msg.contains("multiple MNML storage extensions"), "{msg}");
}

#[test]
fn validate_rejects_absolute_or_parent_location() {
    let d = people(vec![ext(
        Vendor::Mnml,
        r#"{"version":1,"format":"parquet","location":"file:///tmp/people/../x"}"#,
    )]);
    let msg = message(&d);
    assert!(msg.contains("must be relative"), "{msg}");
    assert!(msg.contains("must not contain '..'"), "{msg}");
}

#[test]
fn validate_rejects_invalid_mnml_payload_json() {
    let d = people(vec![ext(Vendor::Mnml, r#"{"version":1,"format":"parquet","#)]);
    let msg = message(&d);
    assert!(msg.contains("invalid MNML extension JSON"), "{msg}");
}

#[test]
fn steelwheels_fixture_parses_and_validates() {
    let doc = steelwheels_doc();
    assert_eq!(doc.version, "0.1.1");
    assert_eq!(doc.semantic_model.len(), 1);
    let m = &doc.semantic_model[0];
    assert_eq!(m.name, "steelwheels");
    assert_eq!(m.datasets.len(), 3);
    assert_eq!(m.relationships.len(), 2);
    assert_eq!(m.metrics.len(), 5);
    validate(&doc).expect("validate steelwheels");
}

#[test]
fn minimal_fixture_parses_and_validates() {
    let doc = minimal_doc();
    assert_eq!(doc.version, "0.1.1");
    assert_eq!(doc.semantic_model.len(), 1);
    let m = &doc.semantic_model[0];
    assert_eq!(m.name, "minimal_model");
    assert_eq!(m.datasets.len(), 1);
    assert_eq!(m.datasets[0].name, "fact");
    validate(&doc).expect("validate minimal");
}

#[test]
fn validation_message_lists_every_issue() {
    let mut d = people(vec![]);
    d.version = "0.2".to_string();
    d.semantic_model[0].datasets.push(dataset("people", "x", vec![field("id", sql("id"))], vec![]));
    let found = issues(&d);
    assert_eq!(
        found,
        vec![
            "[Version] expected \"0.1.1\", got \"0.2\"".to_string(),
            "[Unique] duplicate dataset name \"people\" in model \"m\"".to_string(),
        ]
    );
    let msg = message(&d);
    assert_eq!(
        msg,
        "validation failed:\n[Version] expected \"0.1.1\", got \"0.2\"\n[Unique] duplicate dataset name \"people\" in model \"m\""
    );
}

#[test]
fn duplicates_are_reported_once_in_first_occurrence_order() {
    let d = doc(vec![model(
        "m",
        vec![dataset(
            "d",
            "s.d",
            vec![
                field("b", sql("b")),
                field("a", sql("a")),
                field("b", sql("b")),
                field("a", sql("a")),
                field("b", sql("b")),
                field("c", sql("c")),
            ],
            vec![],
        )],
        vec![],
        vec![],
    )]);
    assert_eq!(
        issues(&d),
        vec![
            "[Unique] duplicate field name \"b\" in dataset \"d\" (model \"m\")".to_string(),
            "[Unique] duplicate field name \"a\" in dataset \"d\" (model \"m\")".to_string(),
        ]
    );
}

#[test]
fn relationships_must_reference_known_datasets() {
    let d = doc(vec![model(
        "m",
        vec![dataset("a", "s.a", vec![field("id", sql("id"))], vec![])],
        vec![rel("r", "a", "zz", &["id", "x"], &["id"])],
        vec![],
    )]);
    assert_eq!(
        issues(&d),
        vec![
            "[Relationship] \"r\": from_columns length 2 does not match to_columns length 1".to_string(),
            "[Reference] relationship \"r\" references unknown dataset \"zz\" (model \"m\")".to_string(),
        ]
    );
}

#[test]
fn expressions_need_a_dialect_and_one_mnml_form() {
    let mut both = field("x", mnml(r#"{"col":"x"}"#));
    both.custom_extensions.push(ext(Vendor::Mnml, r#"{"version":1,"kind":"field_expr","expr":{"col":"x"}}"#));
    let d = doc(vec![model(
        "m",
        vec![dataset("d", "s.d", vec![field("e", Expression { dialects: vec![] }), both], vec![])],
        vec![],
        vec![metric("k", mnml(r#"{"field":"d.x"}"#))],
    )]);
    assert_eq!(
        issues(&d),
        vec![
            "[Expression] field \"d\".\"e\" must have at least one dialect entry".to_string(),
            "[MNML] field \"d\".\"x\" must use either MNML dialect or MNML custom_extensions expression, not both"
                .to_string(),
            "[MNML] metric \"k\" invalid MNML dialect: MNML metric dialect requires `aggregation` or `agg`"
                .to_string(),
        ]
    );
}

#[test]
fn storage_checks_version_and_partitioning_keys() {
    let d = people(vec![ext(
        Vendor::Mnml,
        r#"{"version":2,"format":"parquet","location":"p/","partitioning":{"style":"hive","keys":["dt"," ","dt"]}}"#,
    )]);
    assert_eq!(
        issues(&d),
        vec![
            "[MNML] dataset \"people\" (model \"m\") has unsupported MNML storage version 2; expected 1".to_string(),
            "[MNML] dataset \"people\" (model \"m\") partitioning.keys has duplicate key \"dt\"".to_string(),
            "[MNML] dataset \"people\" (model \"m\") partitioning.keys must not contain empty values".to_string(),
        ]
    );
}
