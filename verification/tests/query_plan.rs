//! Binding queries, building logical plans, and emitting SQL and Substrait from them.
#![allow(dead_code)]

use osi_substrait::emit::sql::to_sql;
use osi_substrait::emit::substrait::{to_plan, SubstraitRel};
use osi_substrait::json::{JsonNumber, JsonValue};
use osi_substrait::model::{
    CustomExtension, Dataset, Dialect, DialectBody, DialectExpression, Expression, Field, Metric,
    OsiDocument, Relationship, SemanticModel, Vendor,
};
use osi_substrait::plan::expr::{AggFunc, Expr, Literal};
use osi_substrait::plan::{LogicalPlan, NamedAggregate};
use osi_substrait::planner::{build_logical_plan, filter_to_expr};
use osi_substrait::prelude;
use osi_substrait::query::{FilterSpec, SemanticQuery};
use osi_substrait::resolver::{bind_query, BoundFilter, QueryError, ResolvedField};
use osi_substrait::validate::validate;

fn to_json(v: &serde_json::Value) -> JsonValue {
    match v {
        serde_json::Value::Null => JsonValue::Null,
        serde_json::Value::Bool(b) => JsonValue::Bool(*b),
        serde_json::Value::Number(n) => JsonValue::Number(JsonNumber {
            as_i64: n.as_i64(),
            as_u64: n.as_u64(),
            f64_text: n.as_f64().map(|f| f.to_string()).unwrap_or_default(),
            text: n.to_string(),
        }),
        serde_json::Value::String(s) => JsonValue::String(s.clone()),
        serde_json::Value::Array(a) => JsonValue::Array(a.iter().map(to_json).collect()),
        serde_json::Value::Object(m) => {
            JsonValue::Object(m.iter().map(|(k, x)| (k.clone(), to_json(x))).collect())
        }
    }
}

fn json(s: &str) -> JsonValue {
    to_json(&serde_json::from_str::<serde_json::Value>(s).expect("test JSON"))
}

fn ext(vendor: Vendor, data: &str) -> CustomExtension {
    CustomExtension {
        vendor_name: vendor,
        data: data.to_string(),
    }
}

fn sql(e: &str) -> Expression {
    Expression { dialects: vec![DialectExpression::ansi_sql(e.to_string())] }
}

fn mnml(body: &str) -> Expression {
    Expression {
        dialects: vec![DialectExpression { dialect: Dialect::Mnml, body: DialectBody::Mnml(json(body)) }],
    }
}

fn field(name: &str, expression: Expression) -> Field {
    Field {
        name: name.to_string(),
        expression,
        dimension: None,
        label: None,
        description: None,
        ai_context: None,
        custom_extensions: vec![],
    }
}

fn dataset(name: &str, source: &str, fields: Vec<Field>, exts: Vec<CustomExtension>) -> Dataset {
    Dataset {
        name: name.to_string(),
        source: source.to_string(),
        primary_key: vec![],
        unique_keys: vec![],
        description: None,
        ai_context: None,
        fields,
        custom_extensions: exts,
    }
}

fn metric(name: &str, expression: Expression) -> Metric {
    Metric {
        name: name.to_string(),
        expression,
        description: None,
        ai_context: None,
        custom_extensions: vec![],
    }
}

fn rel(name: &str, from: &str, to: &str, from_columns: &[&str], to_columns: &[&str]) -> Relationship {
    Relationship {
        name: name.to_string(),
        from: from.to_string(),
        to: to.to_string(),
        from_columns: from_columns.iter().map(|c| c.to_string()).collect(),
        to_columns: to_columns.iter().map(|c| c.to_string()).collect(),
        ai_context: None,
        custom_extensions: vec![],
    }
}

fn model(name: &str, datasets: Vec<Dataset>, relationships: Vec<Relationship>, metrics: Vec<Metric>) -> SemanticModel {
    SemanticModel {
        name: name.to_string(),
        description: None,
        ai_context: None,
        datasets,
        relationships,
        metrics,
        custom_extensions: vec![],
    }
}

fn doc(models: Vec<SemanticModel>) -> OsiDocument {
    OsiDocument { version: "0.1.1".to_string(), dialects: None, vendors: None, semantic_model: models }
}

fn strings(v: &[&str]) -> Vec<String> {
    v.iter().map(|s| s.to_string()).collect()
}

/// The `minimal_model`: one dataset `fact` and a `row_count` metric.
fn minimal_doc() -> OsiDocument {
    doc(vec![model(
        "minimal_model",
        vec![dataset(
            "fact",
            "warehouse.public.fact_table",
            vec![field("id", sql("id")), field("day", sql("day")), field("month_days", sql("month_days"))],
            vec![],
        )],
        vec![],
        vec![metric("row_count", sql("COUNT(*)"))],
    )])
}

/// The `steelwheels` model: order facts joined to dates and customers.
fn steelwheels_doc() -> OsiDocument {
    doc(vec![model(
        "steelwheels",
        vec![
            dataset(
                "orderfact",
                "steelwheels.orderfact",
                vec![
                    field("order_status", sql("order_status")),
                    field("time_id", sql("time_id")),
                    field("customer_id", sql("customer_id")),
                    field("total_price", sql("total_price")),
                    field("quantity", sql("quantity")),
                ],
                vec![],
            ),
            dataset(
                "dates",
                "steelwheels.dates",
                vec![field("time_id", sql("time_id")), field("year_id", sql("year_id"))],
                vec![],
            ),
            dataset(
                "customers",
                "steelwheels.customers",
                vec![field("customer_id", sql("customer_id")), field("customer_name", sql("customer_name"))],
                vec![],
            ),
        ],
        vec![
            rel("orderfact_dates", "orderfact", "dates", &["time_id"], &["time_id"]),
            rel("orderfact_customers", "orderfact", "customers", &["customer_id"], &["customer_id"]),
        ],
        vec![
            metric("sales", sql("SUM(total_price)")),
            metric("quantity", sql("SUM(quantity)")),
            metric("order_count", sql("COUNT(*)")),
            metric("avg_price", sql("AVG(total_price)")),
            metric("max_price", sql("MAX(total_price)")),
        ],
    )])
}

/// Two datasets with no relationship between them.
fn disconnected_doc() -> OsiDocument {
    doc(vec![model(
        "disconnected_model",
        vec![
            dataset("alpha", "s.alpha", vec![field("id", sql("id"))], vec![]),
            dataset("beta", "s.beta", vec![field("id", sql("id"))], vec![]),
        ],
        vec![],
        vec![],
    )])
}

/// The `mnml_model`: MNML fields and metrics on `fact`.
fn mnml_doc() -> OsiDocument {
    doc(vec![model(
        "mnml_model",
        vec![dataset(
            "fact",
            "warehouse.public.fact",
            vec![
                field("id", mnml(r#"{"col":"id"}"#)),
                field("is_starter", mnml(r#"{"col":"is_starter"}"#)),
                field(
                    "starter_flag",
                    mnml(r#"{"case":[{"when":{"eq":[{"col":"is_starter"},{"lit":1}]},"then":{"lit":1}}],"else":{"lit":0}}"#),
                ),
            ],
            vec![],
        )],
        vec![],
        vec![
            metric("starters", mnml(r#"{"aggregation":"sum","field":"fact.starter_flag"}"#)),
            metric("row_count", mnml(r#"{"aggregation":"count"}"#)),
        ],
    )])
}

/// The `people_daily` model: a daily snapshot of people with MNML fields, metrics and storage.
fn people_daily_doc() -> OsiDocument {
    doc(vec![model(
        "people_daily",
        vec![dataset(
            "people_daily",
            "people_daily",
            vec![
                field("dt", mnml(r#"{"col":"dt"}"#)),
                field("year", mnml(r#"{"col":"year"}"#)),
                field("year_mm", mnml(r#"{"col":"year_mm"}"#)),
                field("month_desc", mnml(r#"{"col":"month_desc"}"#)),
                field("employment_type_name", mnml(r#"{"col":"employment_type_name"}"#)),
                field("employee_id", mnml(r#"{"col":"employee_id"}"#)),
                field("employment_start_date", mnml(r#"{"col":"employment_start_date"}"#)),
                field("is_starter", mnml(r#"{"col":"is_starter"}"#)),
                field("is_leaver", mnml(r#"{"col":"is_leaver"}"#)),
                field(
                    "starter_flag",
                    mnml(r#"{"case":[{"when":{"eq":[{"col":"is_starter"},{"lit":1}]},"then":{"lit":1}}],"else":{"lit":0}}"#),
                ),
                field(
                    "leaver_flag",
                    mnml(r#"{"case":[{"when":{"eq":[{"col":"is_leaver"},{"lit":1}]},"then":{"lit":1}}],"else":{"lit":0}}"#),
                ),
            ],
            vec![ext(
                Vendor::Mnml,
                r#"{"version":1,"format":"parquet","location":"people_daily/","partitioning":{"style":"hive","keys":["dt"]}}"#,
            )],
        )],
        vec![],
        vec![
            metric("starters", mnml(r#"{"aggregation":"sum","field":"people_daily.starter_flag"}"#)),
            metric("turnover", mnml(r#"{"aggregation":"sum","field":"people_daily.leaver_flag"}"#)),
            metric("num_days", mnml(r#"{"aggregation":"count","distinct":true,"field":"people_daily.dt"}"#)),
            metric(
                "num_employees",
                mnml(r#"{"aggregation":"count","distinct":true,"field":"people_daily.employee_id"}"#),
            ),
            metric(
                "tenure",
                mnml(r#"{"aggregation":"max","expr":{"sub":[{"current_date":true},{"col":"people_daily.employment_start_date"}]}}"#),
            ),
        ],
    )])
}

fn column(dataset: &str, sql: &str) -> Expr {
    Expr::column(dataset.to_string(), sql.to_string())
}

#[test]
fn bind_group_by_only() {
    let doc = minimal_doc();
    let spec = SemanticQuery { group_by: strings(&["fact.id"]), ..Default::default() };
    let bound = bind_query(&doc, "minimal_model", &spec).expect("bind");
    assert_eq!(bound.root_dataset, "fact");
    assert_eq!(bound.group_by.len(), 1);
    assert!(bound.metrics.is_empty());
}

#[test]
fn bind_metrics_only_errors_without_dataset() {
    let doc = minimal_doc();
    let err = match bind_query(
        &doc,
        "minimal_model",
        &SemanticQuery { metrics: strings(&["row_count"]), ..Default::default() },
    ) {
        Ok(_) => panic!("expected an error"),
        Err(e) => e,
    };
    assert!(matches!(err, QueryError::MissingBaseDataset));
}

#[test]
fn bind_metrics_only_with_dataset() {
    let doc = minimal_doc();
    let spec = SemanticQuery {
        metrics: strings(&["row_count"]),
        dataset: Some("fact".to_string()),
        ..Default::default()
    };
    let bound = bind_query(&doc, "minimal_model", &spec).expect("bind");
    assert_eq!(bound.root_dataset, "fact");
}

#[test]
fn logical_plan_shape() {
    let doc = minimal_doc();
    let model = &doc.semantic_model[0];
    let spec = SemanticQuery {
        group_by: strings(&["fact.id"]),
        metrics: strings(&["row_count"]),
        filters: vec![FilterSpec::new("fact.id".to_string(), json("1"))],
        ..Default::default()
    };
    let bound = bind_query(&doc, "minimal_model", &spec).expect("bind");
    let plan = build_logical_plan(&bound, model).expect("plan");

    let LogicalPlan::Aggregate { input, group_by, aggregates } = plan else {
        panic!("expected aggregate root");
    };
    assert_eq!(group_by, vec![column("", "id")]);
    assert_eq!(
        aggregates,
        vec![NamedAggregate {
            name: "row_count".to_string(),
            expr: Expr::Agg { func: AggFunc::Count, distinct: false, arg: None },
        }]
    );
    let LogicalPlan::Filter { input: filter_input, predicate } = *input else {
        panic!("expected filter");
    };
    assert_eq!(
        predicate,
        Expr::Eq(Box::new(column("", "id")), Box::new(Expr::Literal(Literal::Int64(1))))
    );
    let LogicalPlan::Scan { source, dataset, columns } = *filter_input else {
        panic!("expected scan");
    };
    assert_eq!(source, "warehouse.public.fact_table");
    assert_eq!(dataset, "fact");
    assert!(columns.contains(&"id".to_string()));
}

#[test]
fn eq_field_filter_sql() {
    let doc = minimal_doc();
    let model = &doc.semantic_model[0];
    let spec = SemanticQuery {
        group_by: strings(&["fact.id"]),
        metrics: strings(&["row_count"]),
        filters: vec![FilterSpec {
            field: "fact.day".to_string(),
            operator: Some("eq_field".to_string()),
            value: json("\"fact.month_days\""),
        }],
        ..Default::default()
    };
    let bound = bind_query(&doc, "minimal_model", &spec).expect("bind");
    let plan = build_logical_plan(&bound, model).expect("plan");
    let sql = to_sql(&plan).expect("sql");
    assert!(sql.contains("day = month_days"), "expected column equality in SQL, got: {sql}");
}

#[test]
fn minimal_substrait_plan() {
    let doc = minimal_doc();
    let model = &doc.semantic_model[0];
    let spec = SemanticQuery {
        group_by: strings(&["fact.id"]),
        metrics: strings(&["row_count"]),
        filters: vec![FilterSpec::new("fact.id".to_string(), json("1"))],
        ..Default::default()
    };
    let bound = bind_query(&doc, "minimal_model", &spec).expect("bind");
    let plan = build_logical_plan(&bound, model).expect("plan");
    let p = to_plan(&plan).expect("substrait plan");
    assert!(matches!(p.root, SubstraitRel::Aggregate { .. }));
    assert_eq!(p.names, strings(&["id", "row_count"]));
}

#[test]
fn steelwheels_join_orderfact_and_dates() {
    let doc = steelwheels_doc();
    let model = &doc.semantic_model[0];
    let spec = SemanticQuery {
        group_by: strings(&["dates.year_id"]),
        metrics: strings(&["sales"]),
        dataset: Some("orderfact".to_string()),
        ..Default::default()
    };
    let bound = bind_query(&doc, "steelwheels", &spec).expect("bind");
    assert_eq!(bound.root_dataset, "orderfact");
    assert_eq!(bound.joins.len(), 1);
    assert_eq!(bound.joins[0].right_dataset, "dates");
    assert!(bound.joins[0].on[0].left_sql.contains("time_id"));

    let plan = build_logical_plan(&bound, model).expect("plan");
    let s = plan.display_indent().to_string();
    assert!(s.contains("Join:"), "{s}");
    assert!(s.contains("orderfact") || s.contains("steelwheels.orderfact"), "{s}");
    assert!(s.contains("dates") || s.contains("steelwheels.dates"), "{s}");

    let LogicalPlan::Aggregate { group_by, .. } = plan else {
        panic!("expected aggregate root");
    };
    assert_eq!(group_by, vec![column("dates", "year_id")]);
}

#[test]
fn disconnected_datasets_error() {
    let doc = disconnected_doc();
    let res = bind_query(
        &doc,
        "disconnected_model",
        &SemanticQuery {
            group_by: strings(&["alpha.id", "beta.id"]),
            dataset: Some("alpha".to_string()),
            ..Default::default()
        },
    );
    let err = match res {
        Ok(_) => panic!("expected an error"),
        Err(e) => e,
    };
    assert!(matches!(err, QueryError::DisconnectedDatasets(_)), "{err:?}");
}

#[test]
fn multi_dataset_requires_root_dataset() {
    let doc = steelwheels_doc();
    let res = bind_query(
        &doc,
        "steelwheels",
        &SemanticQuery {
            group_by: strings(&["orderfact.order_status", "dates.year_id"]),
            ..Default::default()
        },
    );
    let err = match res {
        Ok(_) => panic!("expected an error"),
        Err(e) => e,
    };
    assert!(matches!(err, QueryError::MissingRootDataset), "{err:?}");
}

#[test]
fn people_daily_tenant_model_validates_and_plans() {
    let doc = people_daily_doc();
    validate(&doc).expect("validate");
    let model = &doc.semantic_model[0];
    let spec = SemanticQuery {
        metrics: strings(&["starters", "turnover"]),
        group_by: strings(&[
            "people_daily.year_mm",
            "people_daily.month_desc",
            "people_daily.employment_type_name",
        ]),
        dataset: Some("people_daily".to_string()),
        filters: vec![FilterSpec::new("people_daily.year".to_string(), json("[2024, 2025]"))],
    };
    let bound = bind_query(&doc, "people_daily", &spec).expect("bind");
    build_logical_plan(&bound, model).expect("plan");
    let p = to_plan(&build_logical_plan(&bound, model).unwrap()).expect("substrait");
    assert!(!p.names.is_empty());
}

#[test]
fn people_daily_mnml_distinct_and_tenure_metrics() {
    let doc = people_daily_doc();
    validate(&doc).expect("validate");
    let model = &doc.semantic_model[0];
    for name in ["num_days", "num_employees", "tenure"] {
        let spec = SemanticQuery {
            metrics: strings(&[name]),
            group_by: strings(&["people_daily.year"]),
            dataset: Some("people_daily".to_string()),
            ..Default::default()
        };
        let bound = bind_query(&doc, "people_daily", &spec).expect("bind");
        let plan = build_logical_plan(&bound, model).expect("plan");
        let sql = to_sql(&plan).expect("sql");
        if name == "tenure" {
            assert!(sql.contains("CURRENT_DATE"), "{sql}");
            assert!(sql.contains("employment_start_date"), "{sql}");
        } else {
            assert!(sql.contains("COUNT(DISTINCT"), "{sql}");
        }
        to_plan(&plan).expect("substrait");
    }
}

#[test]
fn mnml_starters_metric_plan_and_substrait() {
    let doc = mnml_doc();
    let model = &doc.semantic_model[0];
    let spec = SemanticQuery {
        group_by: strings(&["fact.id"]),
        metrics: strings(&["starters"]),
        dataset: Some("fact".to_string()),
        ..Default::default()
    };
    let bound = bind_query(&doc, "mnml_model", &spec).expect("bind");
    let plan = build_logical_plan(&bound, model).expect("plan");
    let sql = to_sql(&plan).expect("sql");
    assert!(
        sql.contains("CASE") && sql.contains("is_starter") && sql.contains("starters"),
        "expected CASE aggregate from MNML, got: {sql}"
    );
    let p = to_plan(&plan).expect("substrait");
    assert!(matches!(p.root, SubstraitRel::Aggregate { .. }));
}

#[test]
fn mnml_row_count_metric() {
    let doc = mnml_doc();
    let model = &doc.semantic_model[0];
    let spec = SemanticQuery {
        metrics: strings(&["row_count"]),
        dataset: Some("fact".to_string()),
        ..Default::default()
    };
    let bound = bind_query(&doc, "mnml_model", &spec).expect("bind");
    let plan = build_logical_plan(&bound, model).expect("plan");
    let LogicalPlan::Aggregate { aggregates, .. } = plan else {
        panic!("aggregate root");
    };
    assert!(matches!(aggregates[0].expr, Expr::Agg { func: AggFunc::Count, .. }));
}

#[test]
fn empty_query_is_refused() {
    let doc = minimal_doc();
    let err = match bind_query(&doc, "minimal_model", &SemanticQuery::default()) {
        Ok(_) => panic!("expected an error"),
        Err(e) => e,
    };
    assert!(matches!(err, QueryError::EmptyQuery), "{err:?}");
}

#[test]
fn prelude_covers_the_validate_bind_plan_emit_flow() {
    let doc = minimal_doc();
    assert!(prelude::validate(&doc).is_ok());
    let query = prelude::SemanticQuery {
        metrics: strings(&["row_count"]),
        dataset: Some("fact".to_string()),
        ..Default::default()
    };
    let bound = match prelude::bind_query(&doc, "minimal_model", &query) {
        Ok(b) => b,
        Err(e) => panic!("bind: {e:?}"),
    };
    let model = doc.semantic_model.iter().find(|m| m.name == "minimal_model").unwrap();
    let plan = prelude::build_logical_plan(&bound, model).expect("plan");
    assert!(prelude::to_plan(&plan).is_ok());
    let sql = prelude::to_sql(&plan).expect("sql");
    assert!(sql.contains("COUNT(*) AS row_count"), "{sql}");
}

#[test]
fn unknown_or_empty_model_names_are_not_found() {
    let doc = minimal_doc();
    let q = SemanticQuery { metrics: strings(&["row_count"]), ..Default::default() };
    match bind_query(&doc, "nope", &q) {
        Err(QueryError::ModelNotFound(n)) => assert_eq!(n, "nope"),
        _ => panic!("expected ModelNotFound"),
    }
    match bind_query(&doc, "", &q) {
        Err(QueryError::ModelNotFound(n)) => assert_eq!(n, ""),
        _ => panic!("expected ModelNotFound"),
    }
}

#[test]
fn bound_query_keeps_the_query_shape_and_one_join_fewer_than_sources() {
    let doc = steelwheels_doc();
    let spec = SemanticQuery {
        group_by: strings(&["dates.year_id"]),
        metrics: strings(&["sales"]),
        filters: vec![FilterSpec::new("orderfact.order_status".to_string(), json(r#"["Shipped","Resolved"]"#))],
        dataset: Some("orderfact".to_string()),
    };
    let bound = match bind_query(&doc, "steelwheels", &spec) {
        Ok(b) => b,
        Err(e) => panic!("bind: {e:?}"),
    };
    assert_eq!(bound.model_name, "steelwheels");
    assert_eq!(bound.joins.len() + 1, bound.sources.len());
    assert_eq!(bound.group_by.len(), 1);
    assert_eq!(format!("{}.{}", bound.group_by[0].dataset, bound.group_by[0].field.name), "dates.year_id");
    assert_eq!(bound.metrics.len(), 1);
    assert_eq!(bound.metrics[0].name, "sales");
    assert_eq!(bound.filters.len(), 1);
    assert_eq!(bound.filters[0].operator, "in");
}

#[test]
fn filters_compile_by_operator() {
    let f = field("status", sql("status"));
    let m = model("m", vec![dataset("d", "s.d", vec![field("status", sql("status"))], vec![])], vec![], vec![]);
    let bound = |op: &str, value: &str| BoundFilter {
        field: ResolvedField { dataset: "d".to_string(), field: &f },
        operator: op.to_string(),
        value: json(value),
        rhs_field: None,
    };
    let col = || Box::new(Expr::column("".to_string(), "status".to_string()));
    assert_eq!(
        filter_to_expr(&bound("in", r#"["a","b"]"#), false, &m).ok(),
        Some(Expr::In { expr: col(), values: vec![Literal::String("a".to_string()), Literal::String("b".to_string())] })
    );
    assert_eq!(
        filter_to_expr(&bound("ne", r#""a""#), false, &m).ok(),
        Some(Expr::Ne(col(), Box::new(Expr::Literal(Literal::String("a".to_string())))))
    );
    assert_eq!(
        filter_to_expr(&bound("like", "3"), false, &m).ok(),
        Some(Expr::Eq(col(), Box::new(Expr::Literal(Literal::Int64(3)))))
    );
}
