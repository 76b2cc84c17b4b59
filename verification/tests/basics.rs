//! Text, JSON and error-message building blocks, observed through the library's functions.

use osi_substrait::model::document::reads_as_json;
use osi_substrait::emit::sql::to_sql;
use osi_substrait::emit::EmitError;
use osi_substrait::error::Error;
use osi_substrait::json::{JsonNumber, JsonValue};
use osi_substrait::plan::expr::{AggFunc, ColumnRef, Expr, JoinKey, Literal};
use osi_substrait::plan::{
    format_column, format_join_on, parse_column_sql, parse_metric_sql, pick_expression_sql,
    LogicalPlan,
};
use osi_substrait::model::{Dialect, DialectBody, DialectExpression, Expression};
use osi_substrait::resolver::QueryError;
use osi_substrait::sql_quote::dotted_osi_name_as_sql_table_expr;

fn number(i: i64) -> JsonValue {
    JsonValue::Number(JsonNumber { as_i64: Some(i), as_u64: None, f64_text: format!("{}", i as f64), text: i.to_string() })
}

#[test]
fn metric_sql_reads_aggregate_calls() {
    assert_eq!(parse_metric_sql(" count(*) "), Expr::Agg { func: AggFunc::Count, distinct: false, arg: None });
    assert_eq!(parse_metric_sql("Sum(price)"), Expr::Sql("Sum(price)".to_string()));
    assert_eq!(
        parse_metric_sql("COUNT(DISTINCT t.id)"),
        Expr::Agg {
            func: AggFunc::Count,
            distinct: true,
            arg: Some(Box::new(Expr::column("t".to_string(), "id".to_string()))),
        }
    );
    assert_eq!(
        parse_metric_sql("SUM(price)"),
        Expr::Agg {
            func: AggFunc::Sum,
            distinct: false,
            arg: Some(Box::new(Expr::column(String::new(), "price".to_string()))),
        }
    );
    assert_eq!(parse_metric_sql("price * 2"), Expr::Sql("price * 2".to_string()));
}

#[test]
fn column_sql_splits_at_the_first_dot() {
    assert_eq!(parse_column_sql(" t.x "), Some(Expr::column("t".to_string(), "x".to_string())));
    assert_eq!(parse_column_sql("x"), Some(Expr::column(String::new(), "x".to_string())));
    assert_eq!(parse_column_sql("f(x)"), None);
    assert_eq!(parse_column_sql("a b"), None);
}

#[test]
fn table_names_are_quoted_when_needed() {
    assert_eq!(dotted_osi_name_as_sql_table_expr("warehouse.public.t"), "\"warehouse.public.t\"");
    let c = ColumnRef::new("t".to_string(), "x".to_string());
    assert_eq!(format_column(&c, false), "x");
    let keys = vec![JoinKey {
        left_dataset: "a".to_string(),
        left_sql: "id".to_string(),
        right_dataset: "b".to_string(),
        right_sql: "a_id".to_string(),
    }];
    assert_eq!(format_join_on(&keys, false), vec!["id = a_id".to_string()]);
}

#[test]
fn json_literals_keep_integers_and_render_the_rest() {
    assert_eq!(Literal::from_json(&number(7)), Literal::Int64(7));
    assert_eq!(Literal::from_json(&JsonValue::String("x".to_string())), Literal::String("x".to_string()));
    let arr = JsonValue::Array(vec![number(1), JsonValue::String("a\"b".to_string()), JsonValue::Null]);
    assert_eq!(Literal::from_json(&arr), Literal::String("[1,\"a\\\"b\",null]".to_string()));
    let obj = JsonValue::Object(vec![("k".to_string(), JsonValue::Bool(true))]);
    assert_eq!(Literal::from_json(&obj), Literal::String("{\"k\":true}".to_string()));
}

#[test]
fn expression_sql_prefers_ansi() {
    let e = Expression {
        dialects: vec![
            DialectExpression { dialect: Dialect::Snowflake, body: DialectBody::Sql("a".to_string()) },
            DialectExpression::ansi_sql("b".to_string()),
        ],
    };
    assert_eq!(pick_expression_sql(&e), Some("b".to_string()));
    let m = Expression {
        dialects: vec![DialectExpression { dialect: Dialect::Mnml, body: DialectBody::Mnml(JsonValue::Null) }],
    };
    assert_eq!(pick_expression_sql(&m), None);
}

#[test]
fn query_error_messages() {
    assert_eq!(
        QueryError::ModelNotFound("a\"b".to_string()).to_string(),
        "semantic model not found: \"a\\\"b\""
    );
    assert_eq!(QueryError::FieldNotFound("d.f".to_string()).to_string(), "field not found: d.f");
    assert_eq!(
        QueryError::DisconnectedDatasets(vec!["a".to_string(), "b".to_string()]).to_string(),
        "datasets are not connected by relationships: [\"a\", \"b\"]"
    );
    assert_eq!(
        QueryError::InvalidFieldRef("x".to_string()).to_string(),
        "invalid field reference \"x\": expected dataset.field"
    );
}

#[test]
fn error_messages() {
    assert_eq!(Error::Io("gone".to_string()).to_string(), "I/O error: gone");
    assert_eq!(Error::NotImplemented.to_string(), "not yet implemented");
    assert_eq!(
        Error::Validation(vec!["a".to_string(), "b".to_string()]).to_string(),
        "validation failed:\na\nb"
    );
    assert_eq!(Error::Query(QueryError::EmptyQuery).to_string(), "query must request at least one `group_by` field, metric, or filter");
}

#[test]
fn sql_refuses_plans_without_an_aggregate_root() {
    let plan = LogicalPlan::Scan { source: "s.t".to_string(), dataset: "t".to_string(), columns: vec!["x".to_string()] };
    assert!(to_sql(&plan).is_err());
}

#[test]
fn emit_error_messages() {
    assert_eq!(
        EmitError::Unsupported("root must be Aggregate (use planner output)").to_string(),
        "unsupported logical plan for emission: root must be Aggregate (use planner output)"
    );
    assert_eq!(EmitError::InvalidPlan("empty SELECT").to_string(), "invalid plan structure: empty SELECT");
    assert_eq!(
        EmitError::ColumnNotFound("fact.x".to_string()).to_string(),
        "column not found in plan schema: fact.x"
    );
    assert_eq!(
        EmitError::UnsupportedExpression("SQL: a".to_string()).to_string(),
        "unsupported expression for Substrait: SQL: a"
    );
}

#[test]
fn documents_read_as_json_by_content() {
    assert!(reads_as_json("  \n\t{\"version\": \"0.1.1\"}"));
    assert!(reads_as_json("{}"));
    assert!(!reads_as_json("version: '0.1.1'\nsemantic_model: []\n"));
    assert!(!reads_as_json(""));
    assert!(!reads_as_json("# {comment}"));
}
