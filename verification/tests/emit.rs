//! SQL text, the indented plan tree, and Substrait plans emitted from logical plans.

use osi_substrait::emit::sql::to_sql;
use osi_substrait::emit::substrait::{
    to_plan, SubstraitExpr, SubstraitLiteral, SubstraitRel, FUNC_AND, FUNC_COUNT, FUNC_EQUAL,
};
use osi_substrait::emit::EmitError;
use osi_substrait::plan::expr::{AggFunc, Expr, JoinKey, Literal};
use osi_substrait::plan::display::push_node;
use osi_substrait::plan::sql_format::format_literal;
use osi_substrait::plan::{format_expr, LogicalPlan, NamedAggregate};

fn column(dataset: &str, sql: &str) -> Expr {
    Expr::column(dataset.to_string(), sql.to_string())
}

fn scan(source: &str, dataset: &str, columns: &[&str]) -> LogicalPlan {
    LogicalPlan::Scan {
        source: source.to_string(),
        dataset: dataset.to_string(),
        columns: columns.iter().map(|c| c.to_string()).collect(),
    }
}

fn row_count() -> NamedAggregate {
    NamedAggregate {
        name: "row_count".to_string(),
        expr: Expr::Agg { func: AggFunc::Count, distinct: false, arg: None },
    }
}

fn minimal_aggregate(source: &str, columns: &[&str]) -> LogicalPlan {
    LogicalPlan::Aggregate {
        input: Box::new(LogicalPlan::Filter {
            input: Box::new(scan(source, "fact", columns)),
            predicate: Expr::Eq(Box::new(column("", "id")), Box::new(Expr::Literal(Literal::Int64(1)))),
        }),
        group_by: vec![column("", "id")],
        aggregates: vec![row_count()],
    }
}

#[test]
fn aggregate_filter_scan_sql() {
    let sql = to_sql(&minimal_aggregate("warehouse.public.fact_table", &["id"])).expect("sql");
    assert!(sql.starts_with("SELECT "));
    assert!(sql.contains("FROM \"warehouse.public.fact_table\""));
    assert!(sql.contains("WHERE id = 1"));
    assert!(sql.contains("GROUP BY id"));
    assert!(sql.contains("COUNT(*) AS row_count"));
}

#[test]
fn display_indent_matches_datafusion_style_tree() {
    let plan = minimal_aggregate("warehouse.public.f", &["id"]);
    let s = plan.display_indent().to_string();
    assert!(
        s.contains("Aggregate:") && s.contains("Filter:") && s.contains("Scan: warehouse.public.f"),
        "{s}"
    );
}

#[test]
fn aggregate_to_substrait_plan() {
    let p = to_plan(&minimal_aggregate("warehouse.public.fact_table", &["id", "day", "month_days"]))
        .expect("plan");
    let SubstraitRel::Aggregate { input, grouping_expressions, groupings, measures } = p.root else {
        panic!("expected an aggregate root");
    };
    assert_eq!(grouping_expressions.len(), 1);
    assert_eq!(groupings, vec![vec![0u32]]);
    assert!(matches!(grouping_expressions[0], SubstraitExpr::Field(0)));
    assert_eq!(measures.len(), 1);
    assert_eq!(measures[0].function, FUNC_COUNT);
    assert!(matches!(
        measures[0].arg,
        SubstraitExpr::Literal { nullable: false, value: SubstraitLiteral::I64(1) }
    ));
    let SubstraitRel::Filter { input: scan_rel, .. } = *input else {
        panic!("expected a filter");
    };
    let SubstraitRel::Read { table, columns } = *scan_rel else {
        panic!("expected a read");
    };
    assert_eq!(table, vec!["warehouse".to_string(), "public".to_string(), "fact_table".to_string()]);
    assert_eq!(columns.len(), 3);
    assert_eq!(p.names, vec!["id".to_string(), "row_count".to_string()]);
    assert_eq!(p.version, (0, 62, 0));
    assert_eq!(p.extension_uris.len(), 5);
    assert_eq!(p.extensions.len(), 11);
}

#[test]
fn substrait_join_keys_address_both_sides() {
    let plan = LogicalPlan::Aggregate {
        input: Box::new(LogicalPlan::Join {
            left: Box::new(scan("s.orders", "orders", &["id", "date_id"])),
            right: Box::new(scan("s.dates", "dates", &["date_id", "year"])),
            on: vec![JoinKey {
                left_dataset: "orders".to_string(),
                left_sql: "date_id".to_string(),
                right_dataset: "dates".to_string(),
                right_sql: "date_id".to_string(),
            }],
        }),
        group_by: vec![column("dates", "year")],
        aggregates: vec![row_count()],
    };
    let p = to_plan(&plan).expect("plan");
    let SubstraitRel::Aggregate { input, grouping_expressions, .. } = p.root else {
        panic!("expected an aggregate root");
    };
    assert!(matches!(grouping_expressions[0], SubstraitExpr::Field(3)));
    let SubstraitRel::Join { condition, .. } = *input else {
        panic!("expected a join");
    };
    let SubstraitExpr::Call { function, args } = condition else {
        panic!("expected a call");
    };
    assert_eq!(function, FUNC_EQUAL);
    assert!(matches!(args[0], SubstraitExpr::Field(1)));
    assert!(matches!(args[1], SubstraitExpr::Field(2)));
    assert_eq!(p.names, vec!["dates.year".to_string(), "row_count".to_string()]);
}

#[test]
fn substrait_refuses_unknown_columns_and_non_aggregate_roots() {
    let mut plan = minimal_aggregate("s.t", &["id"]);
    if let LogicalPlan::Aggregate { group_by, .. } = &mut plan {
        group_by[0] = column("", "missing");
    }
    match to_plan(&plan) {
        Err(EmitError::ColumnNotFound(c)) => assert_eq!(c, ".missing"),
        other => panic!("expected a missing column, got {other:?}"),
    }
    match to_plan(&scan("s.t", "fact", &["id"])) {
        Err(EmitError::Unsupported(m)) => assert_eq!(m, "root must be Aggregate (use planner output)"),
        other => panic!("expected an unsupported root, got {other:?}"),
    }
}

#[test]
fn substrait_and_chains_left_to_right() {
    let plan = LogicalPlan::Aggregate {
        input: Box::new(LogicalPlan::Filter {
            input: Box::new(scan("s.t", "fact", &["a", "b", "c"])),
            predicate: Expr::And(vec![
                Expr::Eq(Box::new(column("", "a")), Box::new(Expr::Literal(Literal::Int64(1)))),
                Expr::Eq(Box::new(column("", "b")), Box::new(Expr::Literal(Literal::Int64(2)))),
                Expr::Eq(Box::new(column("", "c")), Box::new(Expr::Literal(Literal::Int64(3)))),
            ]),
        }),
        group_by: vec![],
        aggregates: vec![row_count()],
    };
    let p = to_plan(&plan).expect("plan");
    let SubstraitRel::Aggregate { input, .. } = p.root else {
        panic!("expected an aggregate root");
    };
    let SubstraitRel::Filter { condition, .. } = *input else {
        panic!("expected a filter");
    };
    let SubstraitExpr::Call { function, args } = condition else {
        panic!("expected a call");
    };
    assert_eq!(function, FUNC_AND);
    assert!(matches!(&args[0], SubstraitExpr::Call { function: FUNC_AND, .. }));
    assert!(matches!(&args[1], SubstraitExpr::Call { function: FUNC_EQUAL, .. }));
}

#[test]
fn sql_formats_literals_and_lists() {
    let e = Expr::In {
        expr: Box::new(column("t", "x")),
        values: vec![Literal::Int64(1), Literal::String("it's".to_string()), Literal::Null],
    };
    assert_eq!(format_expr(&e, true), "t.x IN (1, 'it''s', NULL)");
    assert_eq!(format_expr(&e, false), "x IN (1, 'it''s', NULL)");
    let n = Expr::Ne(Box::new(column("", "y")), Box::new(Expr::Literal(Literal::Bool(true))));
    assert_eq!(format_expr(&n, false), "y <> TRUE");
}

#[test]
fn literals_render_as_sql() {
    assert_eq!(format_literal(&Literal::Null), "NULL");
    assert_eq!(format_literal(&Literal::Bool(true)), "TRUE");
    assert_eq!(format_literal(&Literal::Bool(false)), "FALSE");
    assert_eq!(format_literal(&Literal::Int64(-42)), "-42");
    assert_eq!(format_literal(&Literal::Float64("2.5".to_string())), "2.5");
    assert_eq!(format_literal(&Literal::String("it's".to_string())), "'it''s'");
}

#[test]
fn both_emitters_refuse_a_scan_root() {
    let plan = scan("s.t", "fact", &["id"]);
    match to_sql(&plan) {
        Err(EmitError::Unsupported(m)) => assert_eq!(m, "root must be Aggregate (use planner output)"),
        other => panic!("expected an unsupported root, got {other:?}"),
    }
    match to_plan(&plan) {
        Err(EmitError::Unsupported(m)) => assert_eq!(m, "root must be Aggregate (use planner output)"),
        other => panic!("expected an unsupported root, got {other:?}"),
    }
}

#[test]
fn groupings_follow_the_grouping_expressions() {
    let plan = LogicalPlan::Aggregate {
        input: Box::new(scan("s.t", "fact", &["a", "b"])),
        group_by: vec![],
        aggregates: vec![row_count()],
    };
    let p = to_plan(&plan).expect("plan");
    let SubstraitRel::Aggregate { groupings, .. } = p.root else { panic!("expected an aggregate root") };
    assert!(groupings.is_empty());
    let plan = LogicalPlan::Aggregate {
        input: Box::new(scan("s.t", "fact", &["a", "b"])),
        group_by: vec![column("", "b"), column("", "a")],
        aggregates: vec![row_count()],
    };
    let p = to_plan(&plan).expect("plan");
    let SubstraitRel::Aggregate { groupings, .. } = p.root else { panic!("expected an aggregate root") };
    assert_eq!(groupings, vec![vec![0u32, 1u32]]);
}

#[test]
fn qualification_changes_nothing_without_datasets() {
    let e = Expr::And(vec![
        Expr::Eq(Box::new(column("", "a")), Box::new(Expr::Literal(Literal::Int64(1)))),
        Expr::Sub(Box::new(column("", "b")), Box::new(Expr::CurrentDate)),
    ]);
    assert_eq!(format_expr(&e, true), format_expr(&e, false));
    assert_eq!(format_expr(&e, false), "a = 1 AND (b - CURRENT_DATE)");
    let q = column("fact", "a");
    assert_ne!(format_expr(&q, true), format_expr(&q, false));
}

#[test]
fn nodes_print_in_pre_order_with_growing_padding() {
    let plan = LogicalPlan::Filter {
        input: Box::new(LogicalPlan::Join {
            left: Box::new(scan("s.a", "a", &["id"])),
            right: Box::new(scan("s.b", "b", &["id", "x"])),
            on: vec![JoinKey {
                left_dataset: "a".to_string(),
                left_sql: "id".to_string(),
                right_dataset: "b".to_string(),
                right_sql: "id".to_string(),
            }],
        }),
        predicate: Expr::Eq(Box::new(column("b", "x")), Box::new(Expr::Literal(Literal::Int64(1)))),
    };
    let mut out = String::from("> ");
    push_node(&mut out, &plan, "  ", false);
    assert_eq!(
        out,
        ">   Filter: x = 1\n    Join: inner on=id = id\n      Scan: s.a (dataset=a, cols=1)\n      Scan: s.b (dataset=b, cols=2)\n"
    );
}

#[test]
fn unqualified_sql_ignores_datasets() {
    let e = Expr::Eq(Box::new(column("fact", "a")), Box::new(column("dim", "b")));
    let stripped = Expr::Eq(Box::new(column("", "a")), Box::new(column("", "b")));
    assert_eq!(format_expr(&e, false), format_expr(&stripped, true));
    assert_eq!(format_expr(&e, false), format_expr(&stripped, false));
    assert_eq!(format_expr(&e, false), "a = b");
}
