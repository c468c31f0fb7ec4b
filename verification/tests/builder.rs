use std::sync::Arc;

use plancore::arena::Arena;
use plancore::arena::Node;
use plancore::builder::IRBuilder;
use plancore::dtype::DataType;
use plancore::error::ErrorKind;
use plancore::expr::AExpr;
use plancore::expr::AggKind;
use plancore::expr::Context;
use plancore::expr::Expr;
use plancore::expr::ExprIR;
use plancore::expr::Operator;
use plancore::expr::OutputName;
use plancore::ir::node_schema;
use plancore::ir::plan_is_wf;
use plancore::ir::CachedSchema;
use plancore::ir::FunctionIR;
use plancore::ir::IR;
use plancore::join::det_join_schema;
use plancore::options::ClosedWindow;
use plancore::options::DynamicGroupOptions;
use plancore::options::GroupbyOptions;
use plancore::options::JoinOptionsIR;
use plancore::options::JoinType;
use plancore::options::ProjectionOptions;
use plancore::options::RollingGroupOptions;
use plancore::options::SortMultipleOptions;
use plancore::options::UdfRef;
use plancore::options::UnpivotArgsIR;
use plancore::schema::Schema;

fn schema_of(cols: &[(&str, DataType)]) -> Schema {
    let mut s = Schema::new();
    for (name, dtype) in cols {
        s.with_column(name.to_string(), dtype.clone());
    }
    s
}

fn scan(cols: &[(&str, DataType)]) -> IR {
    IR::Scan { sources: vec!["t".to_string()], schema: schema_of(cols) }
}

fn abc() -> IR {
    scan(&[("a", DataType::Int64), ("b", DataType::Float64), ("c", DataType::String)])
}

fn strings(names: &[&str]) -> Vec<String> {
    names.iter().map(|n| n.to_string()).collect()
}

fn col(arena: &mut Arena<AExpr>, name: &str) -> Node {
    arena.add(AExpr::Column(name.to_string()))
}

fn col_ir(arena: &mut Arena<AExpr>, name: &str) -> ExprIR {
    let node = col(arena, name);
    ExprIR::new(node, OutputName::ColumnLhs(name.to_string()))
}

fn no_groups() -> Arc<GroupbyOptions> {
    Arc::new(GroupbyOptions { dynamic: None, rolling: None, slice: None })
}

fn join_options(how: JoinType, suffix: Option<&str>, coalesce: bool) -> JoinOptionsIR {
    JoinOptionsIR {
        how,
        suffix: suffix.map(|s| s.to_string()),
        coalesce,
        allow_parallel: true,
        force_parallel: false,
        slice: None,
    }
}

#[test]
fn new_builder_stands_on_the_given_root() {
    let mut ex: Arena<AExpr> = Arena::new();
    let mut lp: Arena<IR> = Arena::new();
    let root = lp.add(abc());
    let b = IRBuilder::new(root, &mut ex, &mut lp);
    assert!(b.is_wf());
    assert_eq!(b.schema().len(), 3);
    assert_eq!(b.node(), Node(0));
    assert_eq!(lp.len(), 1);
}

#[test]
fn builder_on_a_missing_root_is_not_well_formed() {
    let mut ex: Arena<AExpr> = Arena::new();
    let mut lp: Arena<IR> = Arena::new();
    lp.add(abc());
    let b = IRBuilder::new(Node(5), &mut ex, &mut lp);
    assert!(!b.is_wf());
    assert_eq!(b.node(), Node(5));
}

#[test]
fn project_without_expressions_is_the_identity() {
    let mut ex: Arena<AExpr> = Arena::new();
    let mut lp: Arena<IR> = Arena::new();
    let b = IRBuilder::from_lp(abc(), &mut ex, &mut lp);
    let before = b.schema();
    let b = b.project(vec![], ProjectionOptions::default());
    assert_eq!(b.schema(), before);
    assert_eq!(b.node(), Node(0));
    assert_eq!(lp.len(), 1);
}

#[test]
fn project_appends_a_select_with_the_resolved_schema() {
    let mut ex: Arena<AExpr> = Arena::new();
    let mut lp: Arena<IR> = Arena::new();
    let c = col_ir(&mut ex, "c");
    let a = col(&mut ex, "a");
    let cast = ex.add(AExpr::Cast { expr: a, dtype: DataType::Int32 });
    let small = ExprIR::new(cast, OutputName::Alias("small".to_string()));
    let b = IRBuilder::from_lp(abc(), &mut ex, &mut lp);
    let exprs = vec![c, small];
    assert!(b.can_resolve(&exprs, Context::Default));
    let b = b.project(exprs, ProjectionOptions::default());
    assert_eq!(b.schema(), schema_of(&[("c", DataType::String), ("small", DataType::Int32)]));
    assert_eq!(b.node(), Node(1));
    assert_eq!(lp.len(), 2);
    assert!(matches!(lp.get(Node(1)), IR::Select { input: Node(0), .. }));
}

#[test]
fn can_resolve_sees_a_missing_column() {
    let mut ex: Arena<AExpr> = Arena::new();
    let mut lp: Arena<IR> = Arena::new();
    let z = col_ir(&mut ex, "z");
    let b = IRBuilder::from_lp(abc(), &mut ex, &mut lp);
    assert!(!b.can_resolve(&vec![z], Context::Default));
}

#[test]
fn project_simple_rejects_a_name_given_twice() {
    let mut ex: Arena<AExpr> = Arena::new();
    let mut lp: Arena<IR> = Arena::new();
    let b = IRBuilder::from_lp(scan(&[("a", DataType::Int64)]), &mut ex, &mut lp);
    match b.project_simple(strings(&["a", "a"])) {
        Ok(_) => panic!("a name given twice was accepted"),
        Err(e) => {
            assert_eq!(e.kind, ErrorKind::Duplicate);
            assert_eq!(e.subject, "found duplicate columns");
        },
    }
    assert_eq!(lp.len(), 1);
    assert!(matches!(lp.get(Node(0)), IR::Scan { .. }));
    assert!(ex.is_empty());
}

#[test]
fn project_simple_names_a_missing_column() {
    let mut ex: Arena<AExpr> = Arena::new();
    let mut lp: Arena<IR> = Arena::new();
    let b = IRBuilder::from_lp(abc(), &mut ex, &mut lp);
    match b.project_simple(strings(&["a", "x", "y"])) {
        Ok(_) => panic!("a missing column was accepted"),
        Err(e) => {
            assert_eq!(e.kind, ErrorKind::ColumnNotFound);
            assert_eq!(e.subject, "x");
        },
    }
    assert_eq!(lp.len(), 1);
}

#[test]
fn project_simple_keeps_the_asked_order() {
    let mut ex: Arena<AExpr> = Arena::new();
    let mut lp: Arena<IR> = Arena::new();
    let b = IRBuilder::from_lp(abc(), &mut ex, &mut lp);
    let b = match b.project_simple(strings(&["c", "a"])) {
        Ok(b) => b,
        Err(e) => panic!("{:?}", e),
    };
    assert_eq!(b.schema(), schema_of(&[("c", DataType::String), ("a", DataType::Int64)]));
    assert_eq!(b.node(), Node(1));
    assert!(matches!(lp.get(Node(1)), IR::SimpleProjection { input: Node(0), .. }));
}

#[test]
fn project_simple_without_names_is_the_identity() {
    let mut ex: Arena<AExpr> = Arena::new();
    let mut lp: Arena<IR> = Arena::new();
    let b = IRBuilder::from_lp(abc(), &mut ex, &mut lp);
    let b = match b.project_simple(vec![]) {
        Ok(b) => b,
        Err(e) => panic!("{:?}", e),
    };
    assert_eq!(b.node(), Node(0));
    assert_eq!(lp.len(), 1);
}

#[test]
fn project_simple_nodes_reads_the_names_from_the_arena() {
    let mut ex: Arena<AExpr> = Arena::new();
    let mut lp: Arena<IR> = Arena::new();
    let b_node = col(&mut ex, "b");
    let a_node = col(&mut ex, "a");
    let len_node = ex.add(AExpr::Len);
    let b = IRBuilder::from_lp(abc(), &mut ex, &mut lp);
    assert!(b.are_columns(&vec![b_node, a_node]));
    assert!(!b.are_columns(&vec![b_node, len_node]));
    assert!(!b.are_columns(&vec![Node(17)]));
    let b = match b.project_simple_nodes(vec![b_node, a_node]) {
        Ok(b) => b,
        Err(e) => panic!("{:?}", e),
    };
    assert_eq!(b.schema(), schema_of(&[("b", DataType::Float64), ("a", DataType::Int64)]));
    let b = match b.project_simple_nodes(vec![a_node, a_node]) {
        Ok(_) => panic!("a name given twice was accepted"),
        Err(e) => e,
    };
    assert_eq!(b.kind, ErrorKind::Duplicate);
    assert_eq!(lp.len(), 2);
}

#[test]
fn drop_of_an_absent_name_keeps_every_column() {
    let mut ex: Arena<AExpr> = Arena::new();
    let mut lp: Arena<IR> = Arena::new();
    let b = IRBuilder::from_lp(abc(), &mut ex, &mut lp);
    let before = b.schema();
    let b = b.drop(strings(&["z"]));
    assert_eq!(b.schema(), before);
    assert_eq!(
        b.schema(),
        schema_of(&[("a", DataType::Int64), ("b", DataType::Float64), ("c", DataType::String)])
    );
}

#[test]
fn drop_takes_out_the_named_columns_only() {
    let mut ex: Arena<AExpr> = Arena::new();
    let mut lp: Arena<IR> = Arena::new();
    let b = IRBuilder::from_lp(abc(), &mut ex, &mut lp);
    let b = b.drop(strings(&["c", "z", "a", "c"]));
    assert_eq!(b.schema(), schema_of(&[("b", DataType::Float64)]));
    assert_eq!(b.node(), Node(1));
    assert!(matches!(lp.get(Node(1)), IR::SimpleProjection { input: Node(0), .. }));
}

#[test]
fn drop_without_names_is_the_identity() {
    let mut ex: Arena<AExpr> = Arena::new();
    let mut lp: Arena<IR> = Arena::new();
    let b = IRBuilder::from_lp(abc(), &mut ex, &mut lp);
    let b = b.drop(vec![]);
    assert_eq!(b.node(), Node(0));
    assert_eq!(lp.len(), 1);
}

#[test]
fn sort_keeps_the_schema_of_its_input() {
    let mut ex: Arena<AExpr> = Arena::new();
    let mut lp: Arena<IR> = Arena::new();
    let by = col_ir(&mut ex, "a");
    let b = IRBuilder::from_lp(abc(), &mut ex, &mut lp);
    let before = b.schema();
    let options = SortMultipleOptions {
        descending: vec![true],
        nulls_last: vec![false],
        multithreaded: true,
        maintain_order: false,
        limit: None,
    };
    let b = b.sort(vec![by], Some((0, 10)), options);
    assert_eq!(b.schema(), before);
    assert_eq!(b.node(), Node(1));
    match lp.get(Node(1)) {
        IR::Sort { input, by_column, slice, sort_options } => {
            assert_eq!(*input, Node(0));
            assert_eq!(by_column.len(), 1);
            assert_eq!(*slice, Some((0, 10)));
            assert_eq!(sort_options.descending, vec![true]);
        },
        other => panic!("{:?}", other),
    }
}

#[test]
fn group_by_has_the_keys_then_the_aggregations() {
    let mut ex: Arena<AExpr> = Arena::new();
    let mut lp: Arena<IR> = Arena::new();
    let k = col_ir(&mut ex, "k");
    let v = col(&mut ex, "v");
    let mean = ex.add(AExpr::Agg { kind: AggKind::Mean, input: v });
    let agg = ExprIR::new(mean, OutputName::Alias("v_mean".to_string()));
    let input = scan(&[("k", DataType::Int64), ("v", DataType::Float64)]);
    let b = IRBuilder::from_lp(input, &mut ex, &mut lp);
    let keys = vec![k];
    let aggs = vec![agg];
    assert!(b.can_resolve(&keys, Context::Default));
    assert!(b.can_resolve(&aggs, Context::Aggregation));
    let options = no_groups();
    assert!(b.knows_window_column(&options));
    let b = b.group_by(keys, aggs, Some(UdfRef(3)), true, options);
    assert_eq!(b.schema(), schema_of(&[("k", DataType::Int64), ("v_mean", DataType::Float64)]));
    match lp.get(Node(1)) {
        IR::GroupBy { input, keys, aggs, apply, maintain_order, .. } => {
            assert_eq!(*input, Node(0));
            assert_eq!(keys.len(), 1);
            assert_eq!(aggs.len(), 1);
            assert_eq!(*apply, Some(UdfRef(3)));
            assert!(*maintain_order);
        },
        other => panic!("{:?}", other),
    }
}

#[test]
fn group_by_makes_a_list_of_what_is_not_aggregated() {
    let mut ex: Arena<AExpr> = Arena::new();
    let mut lp: Arena<IR> = Arena::new();
    let k = col_ir(&mut ex, "k");
    let v = col_ir(&mut ex, "v");
    let v2 = col(&mut ex, "v");
    let sum = ex.add(AExpr::Agg { kind: AggKind::Sum, input: v2 });
    let total = ExprIR::new(sum, OutputName::Alias("total".to_string()));
    let input = scan(&[("k", DataType::Int64), ("v", DataType::Int8)]);
    let b = IRBuilder::from_lp(input, &mut ex, &mut lp);
    let b = b.group_by(vec![k], vec![v, total], None, false, no_groups());
    assert_eq!(
        b.schema(),
        schema_of(&[
            ("k", DataType::Int64),
            ("v", DataType::List(Box::new(DataType::Int8))),
            ("total", DataType::Int64),
        ])
    );
}

#[test]
fn group_by_rolling_adds_the_index_column() {
    let mut ex: Arena<AExpr> = Arena::new();
    let mut lp: Arena<IR> = Arena::new();
    let k = col_ir(&mut ex, "k");
    let input = scan(&[("t", DataType::Date), ("k", DataType::Int64)]);
    let b = IRBuilder::from_lp(input, &mut ex, &mut lp);
    let options = Arc::new(GroupbyOptions {
        dynamic: None,
        rolling: Some(RollingGroupOptions {
            index_column: "t".to_string(),
            period: 10,
            offset: 0,
            closed_window: ClosedWindow::Right,
        }),
        slice: None,
    });
    assert!(b.knows_window_column(&options));
    let b = b.group_by(vec![k], vec![], None, false, options);
    assert_eq!(b.schema(), schema_of(&[("k", DataType::Int64), ("t", DataType::Date)]));
}

#[test]
fn group_by_dynamic_adds_the_boundaries_before_the_index() {
    let mut ex: Arena<AExpr> = Arena::new();
    let mut lp: Arena<IR> = Arena::new();
    let k = col_ir(&mut ex, "k");
    let input = scan(&[("t", DataType::Date), ("k", DataType::Int64)]);
    let b = IRBuilder::from_lp(input, &mut ex, &mut lp);
    let options = Arc::new(GroupbyOptions {
        dynamic: Some(DynamicGroupOptions {
            index_column: "t".to_string(),
            every: 5,
            period: 5,
            offset: 0,
            include_boundaries: true,
            closed_window: ClosedWindow::Left,
        }),
        rolling: None,
        slice: None,
    });
    let b = b.group_by(vec![k], vec![], None, false, options);
    assert_eq!(
        b.schema(),
        schema_of(&[
            ("k", DataType::Int64),
            ("_lower_boundary", DataType::Date),
            ("_upper_boundary", DataType::Date),
            ("t", DataType::Date),
        ])
    );
}

#[test]
fn window_column_must_be_known() {
    let mut ex: Arena<AExpr> = Arena::new();
    let mut lp: Arena<IR> = Arena::new();
    let b = IRBuilder::from_lp(abc(), &mut ex, &mut lp);
    let options = GroupbyOptions {
        dynamic: None,
        rolling: Some(RollingGroupOptions {
            index_column: "t".to_string(),
            period: 10,
            offset: 0,
            closed_window: ClosedWindow::Both,
        }),
        slice: None,
    };
    assert!(!b.knows_window_column(&options));
}

#[test]
fn with_columns_overwrites_in_place_and_appends() {
    let mut ex: Arena<AExpr> = Arena::new();
    let mut lp: Arena<IR> = Arena::new();
    let a = col(&mut ex, "a");
    let cast = ex.add(AExpr::Cast { expr: a, dtype: DataType::Float32 });
    let a_as_float = ExprIR::new(cast, OutputName::ColumnLhs("a".to_string()));
    let len = ex.add(AExpr::Len);
    let n = ExprIR::new(len, OutputName::Alias("n".to_string()));
    let b = IRBuilder::from_lp(abc(), &mut ex, &mut lp);
    let b = b.with_columns(vec![n, a_as_float], ProjectionOptions::default());
    assert_eq!(
        b.schema(),
        schema_of(&[
            ("a", DataType::Float32),
            ("b", DataType::Float64),
            ("c", DataType::String),
            ("n", DataType::UInt32),
        ])
    );
    assert!(matches!(lp.get(Node(1)), IR::HStack { input: Node(0), .. }));
}

#[test]
fn with_columns_simple_writes_name_and_type_into_the_expressions() {
    let mut ex: Arena<AExpr> = Arena::new();
    let mut lp: Arena<IR> = Arena::new();
    let b_node = col(&mut ex, "b");
    let cast = ex.add(AExpr::Cast { expr: b_node, dtype: DataType::Int16 });
    let lit = ex.add(AExpr::Literal(DataType::Boolean));
    let b = IRBuilder::from_lp(abc(), &mut ex, &mut lp);
    let nodes = vec![cast, lit];
    assert!(b.can_resolve_nodes(&nodes));
    assert!(!b.can_resolve_nodes(&vec![Node(40)]));
    let b = b.with_columns_simple(nodes, ProjectionOptions::default());
    assert_eq!(
        b.schema(),
        schema_of(&[
            ("a", DataType::Int64),
            ("b", DataType::Int16),
            ("c", DataType::String),
            ("literal", DataType::Boolean),
        ])
    );
    match lp.get(Node(1)) {
        IR::HStack { exprs, .. } => {
            assert_eq!(exprs.len(), 2);
            assert_eq!(exprs[0].node(), cast);
            assert!(matches!(&exprs[0].output_name, OutputName::ColumnLhs(n) if n == "b"));
            assert_eq!(exprs[0].output_dtype, Some(DataType::Int16));
            assert!(matches!(&exprs[1].output_name, OutputName::ColumnLhs(n) if n == "literal"));
            assert_eq!(exprs[1].output_dtype, Some(DataType::Boolean));
        },
        other => panic!("{:?}", other),
    }
}

#[test]
fn explode_defers_its_schema_and_derives_it_from_the_input() {
    let mut ex: Arena<AExpr> = Arena::new();
    let mut lp: Arena<IR> = Arena::new();
    let input = scan(&[
        ("a", DataType::List(Box::new(DataType::Int32))),
        ("b", DataType::List(Box::new(DataType::String))),
        ("c", DataType::Int64),
    ]);
    let b = IRBuilder::from_lp(input, &mut ex, &mut lp);
    let b = b.explode(strings(&["a", "c", "zz"]));
    assert_eq!(
        b.schema(),
        schema_of(&[
            ("a", DataType::Int32),
            ("b", DataType::List(Box::new(DataType::String))),
            ("c", DataType::Int64),
        ])
    );
    match lp.get(Node(1)) {
        IR::MapFunction { input, function } => {
            assert_eq!(*input, Node(0));
            assert!(function.schema_is_pending());
            assert!(matches!(function, FunctionIR::Explode { schema: CachedSchema::Pending, .. }));
        },
        other => panic!("{:?}", other),
    }
}

#[test]
fn row_index_defers_its_schema_and_puts_the_index_first() {
    let mut ex: Arena<AExpr> = Arena::new();
    let mut lp: Arena<IR> = Arena::new();
    let b = IRBuilder::from_lp(abc(), &mut ex, &mut lp);
    let b = b.row_index("idx".to_string(), Some(5));
    assert_eq!(
        b.schema(),
        schema_of(&[
            ("idx", DataType::UInt32),
            ("a", DataType::Int64),
            ("b", DataType::Float64),
            ("c", DataType::String),
        ])
    );
    match lp.get(Node(1)) {
        IR::MapFunction { function: FunctionIR::RowIndex { name, offset, schema }, .. } => {
            assert_eq!(name, "idx");
            assert_eq!(*offset, Some(5));
            assert!(schema.is_pending());
        },
        other => panic!("{:?}", other),
    }
}

#[test]
fn unpivot_defers_its_schema_and_keeps_the_index_columns() {
    let mut ex: Arena<AExpr> = Arena::new();
    let mut lp: Arena<IR> = Arena::new();
    let b = IRBuilder::from_lp(abc(), &mut ex, &mut lp);
    let args = Arc::new(UnpivotArgsIR {
        on: strings(&["zz", "b"]),
        index: strings(&["c", "nope"]),
        variable_name: None,
        value_name: Some("val".to_string()),
    });
    let b = b.unpivot(args);
    assert_eq!(
        b.schema(),
        schema_of(&[("c", DataType::String), ("variable", DataType::String), ("val", DataType::Float64)])
    );
    match lp.get(Node(1)) {
        IR::MapFunction { function, .. } => assert!(function.schema_is_pending()),
        other => panic!("{:?}", other),
    }
}

#[test]
fn a_written_down_schema_wins_over_the_derived_one() {
    let mut ex: Arena<AExpr> = Arena::new();
    let mut lp: Arena<IR> = Arena::new();
    let b = IRBuilder::from_lp(abc(), &mut ex, &mut lp);
    let known = schema_of(&[("only", DataType::Null)]);
    let function = FunctionIR::Explode {
        columns: strings(&["a"]),
        schema: CachedSchema::Resolved(known.clone()),
    };
    assert!(!function.schema_is_pending());
    let b = b.add_alp(IR::MapFunction { input: Node(0), function });
    assert!(b.is_wf());
    assert_eq!(b.schema(), known);
}

#[test]
fn join_suffixes_right_columns_that_the_left_has() {
    let mut ex: Arena<AExpr> = Arena::new();
    let mut lp: Arena<IR> = Arena::new();
    let left_key = col_ir(&mut ex, "id");
    let right_key = col_ir(&mut ex, "id");
    let right = lp.add(scan(&[("id", DataType::Int64), ("v", DataType::Int8), ("w", DataType::Date)]));
    let left = scan(&[("id", DataType::Int64), ("v", DataType::String)]);
    let b = IRBuilder::from_lp(left, &mut ex, &mut lp);
    let options = join_options(JoinType::Inner, None, true);
    let left_on = vec![left_key];
    let right_on = vec![right_key];
    assert!(b.can_join(right, &left_on, &right_on, &options));
    let b = match b.join(right, left_on, right_on, Arc::new(options)) {
        Ok(b) => b,
        Err(e) => panic!("{:?}", e),
    };
    assert_eq!(b.node(), Node(2));
    let b = IRBuilder::new(Node(2), &mut ex, &mut lp);
    assert_eq!(
        b.schema(),
        schema_of(&[
            ("id", DataType::Int64),
            ("v", DataType::String),
            ("v_right", DataType::Int8),
            ("w", DataType::Date),
        ])
    );
    assert_eq!(b.node(), Node(2));
    match lp.get(Node(2)) {
        IR::Join { input_left, input_right, options, .. } => {
            assert_eq!(*input_left, Node(1));
            assert_eq!(*input_right, Node(0));
            assert_eq!(options.how, JoinType::Inner);
        },
        other => panic!("{:?}", other),
    }
}

#[test]
fn join_schema_rules() {
    let ex_l = ExprIR::new(Node(0), OutputName::ColumnLhs("id".to_string()));
    let ex_r = ExprIR::new(Node(0), OutputName::ColumnLhs("id".to_string()));
    let left = schema_of(&[("id", DataType::Int64), ("v", DataType::String)]);
    let right = schema_of(&[("id", DataType::Int64), ("v", DataType::Int8)]);
    let l = vec![ex_l];
    let r = vec![ex_r];

    let semi = det_join_schema(&left, &right, &l, &r, &join_options(JoinType::Semi, None, true));
    assert_eq!(semi.unwrap(), left);

    let full = det_join_schema(&left, &right, &l, &r, &join_options(JoinType::Full, Some("_r"), false));
    assert_eq!(
        full.unwrap(),
        schema_of(&[
            ("id", DataType::Int64),
            ("v", DataType::String),
            ("id_r", DataType::Int64),
            ("v_r", DataType::Int8),
        ])
    );

    let empty: Vec<ExprIR> = vec![];
    let uneven = det_join_schema(&left, &right, &l, &empty, &join_options(JoinType::Inner, None, true));
    assert_eq!(uneven.unwrap_err().kind, ErrorKind::InvalidOperation);
}

#[test]
fn join_rejects_a_name_that_would_stand_twice() {
    let mut ex: Arena<AExpr> = Arena::new();
    let mut lp: Arena<IR> = Arena::new();
    let right = lp.add(scan(&[("v", DataType::Int8)]));
    let left = scan(&[("v", DataType::String), ("v_right", DataType::Date)]);
    let b = IRBuilder::from_lp(left, &mut ex, &mut lp);
    let options = join_options(JoinType::Cross, None, false);
    assert!(!b.can_join(right, &vec![], &vec![], &options));
    let l = b.schema();
    let r = node_schema(b.lp_arena, right);
    let e = det_join_schema(&l, &r, &vec![], &vec![], &options).unwrap_err();
    assert_eq!(e.kind, ErrorKind::Duplicate);
    assert_eq!(e.subject, "v_right");
}

#[test]
fn join_with_a_conflict_fails_and_adds_no_node() {
    let mut ex: Arena<AExpr> = Arena::new();
    let mut lp: Arena<IR> = Arena::new();
    let key = col_ir(&mut ex, "v");
    let right = lp.add(scan(&[("v", DataType::Int8)]));
    let left = scan(&[("v", DataType::String), ("v_right", DataType::Date)]);
    let b = IRBuilder::from_lp(left, &mut ex, &mut lp);
    let options = Arc::new(join_options(JoinType::Cross, None, false));
    match b.join(right, vec![], vec![], options) {
        Ok(_) => panic!("a join whose columns collide was accepted"),
        Err(e) => {
            assert_eq!(e.kind, ErrorKind::Duplicate);
            assert_eq!(e.subject, "v_right");
            assert!(e.context.is_empty());
        },
    }
    assert_eq!(lp.len(), 2);
    assert!(matches!(lp.get(Node(0)), IR::Scan { .. }));
    assert!(matches!(lp.get(Node(1)), IR::Scan { .. }));
    assert_eq!(ex.len(), 1);

    let b = IRBuilder::new(Node(1), &mut ex, &mut lp);
    let options = Arc::new(join_options(JoinType::Inner, None, true));
    match b.join(right, vec![key], vec![], options) {
        Ok(_) => panic!("a join with keys on one side only was accepted"),
        Err(e) => assert_eq!(e.kind, ErrorKind::InvalidOperation),
    }
    assert_eq!(lp.len(), 2);
}

#[test]
fn semi_join_keeps_the_left_columns() {
    let mut ex: Arena<AExpr> = Arena::new();
    let mut lp: Arena<IR> = Arena::new();
    let right = lp.add(scan(&[("v", DataType::Int8)]));
    let left = scan(&[("v", DataType::String), ("v_right", DataType::Date)]);
    let b = IRBuilder::from_lp(left, &mut ex, &mut lp);
    let options = Arc::new(join_options(JoinType::Semi, None, false));
    let b = match b.join(right, vec![], vec![], options) {
        Ok(b) => b,
        Err(e) => panic!("{:?}", e),
    };
    assert_eq!(b.schema(), schema_of(&[("v", DataType::String), ("v_right", DataType::Date)]));
    assert_eq!(b.node(), Node(2));
}

#[test]
fn build_takes_the_last_slot_out_of_the_arena() {
    let mut ex: Arena<AExpr> = Arena::new();
    let mut lp: Arena<IR> = Arena::new();
    let b = IRBuilder::from_lp(abc(), &mut ex, &mut lp);
    let b = b.drop(strings(&["b"]));
    let reported = b.schema();
    let root = b.root;
    assert_eq!(root, Node(1));
    let ir = b.build();
    assert_eq!(lp.len(), 1);
    assert!(root.0 >= lp.len());
    assert_eq!(ir.schema(&lp), reported);
    assert!(matches!(ir, IR::SimpleProjection { input: Node(0), .. }));
}

#[test]
fn build_of_a_sort_reports_the_schema_of_its_input() {
    let mut ex: Arena<AExpr> = Arena::new();
    let mut lp: Arena<IR> = Arena::new();
    let b = IRBuilder::from_lp(abc(), &mut ex, &mut lp);
    let options = SortMultipleOptions {
        descending: vec![],
        nulls_last: vec![],
        multithreaded: false,
        maintain_order: true,
        limit: Some(3),
    };
    let b = b.sort(vec![], None, options);
    let reported = b.schema();
    let ir = b.build();
    assert_eq!(lp.len(), 1);
    assert_eq!(ir.schema(&lp), reported);
}

#[test]
fn build_of_an_inner_root_leaves_an_emptied_slot() {
    let mut ex: Arena<AExpr> = Arena::new();
    let mut lp: Arena<IR> = Arena::new();
    lp.add(abc());
    lp.add(scan(&[("x", DataType::Int8)]));
    let b = IRBuilder::new(Node(0), &mut ex, &mut lp);
    let ir = b.build();
    assert!(matches!(ir, IR::Scan { .. }));
    assert_eq!(lp.len(), 2);
    assert!(matches!(lp.get(Node(0)), IR::Invalid));
    assert!(matches!(lp.get(Node(1)), IR::Scan { .. }));
    assert!(plan_is_wf(&lp));
    assert!(node_schema(&lp, Node(0)).is_empty());
}

#[test]
fn add_alp_optimize_exprs_accepts_expressions_that_resolve() {
    let mut ex: Arena<AExpr> = Arena::new();
    let mut lp: Arena<IR> = Arena::new();
    let a = col_ir(&mut ex, "a");
    let b = IRBuilder::from_lp(abc(), &mut ex, &mut lp);
    let r = b.add_alp_optimize_exprs(|input| IR::Select {
        input,
        expr: vec![a],
        schema: schema_of(&[("a", DataType::Int64)]),
        options: ProjectionOptions::default(),
    });
    let b = match r {
        Ok(b) => b,
        Err(e) => panic!("{:?}", e),
    };
    assert_eq!(b.node(), Node(1));
    assert_eq!(lp.len(), 2);
}

#[test]
fn add_alp_optimize_exprs_names_the_failing_node() {
    let mut ex: Arena<AExpr> = Arena::new();
    let mut lp: Arena<IR> = Arena::new();
    let a = col(&mut ex, "a");
    let c = col(&mut ex, "c");
    let sum = ex.add(AExpr::BinaryExpr { left: a, op: Operator::Plus, right: c });
    let bad = ExprIR::new(sum, OutputName::ColumnLhs("a".to_string()));
    let b = IRBuilder::from_lp(abc(), &mut ex, &mut lp);
    let r = b.add_alp_optimize_exprs(|input| IR::Select {
        input,
        expr: vec![bad],
        schema: Schema::new(),
        options: ProjectionOptions::default(),
    });
    match r {
        Ok(_) => panic!("an expression that does not type-check was accepted"),
        Err(e) => {
            assert_eq!(e.kind, ErrorKind::SchemaMismatch);
            assert_eq!(e.subject, "a");
            assert_eq!(e.context, vec!["optimizing 'select' failed"]);
        },
    }
    assert_eq!(lp.len(), 2);
}

#[test]
fn add_alp_optimized_rejects_a_node_that_reads_forward() {
    let mut ex: Arena<AExpr> = Arena::new();
    let mut lp: Arena<IR> = Arena::new();
    let b = IRBuilder::from_lp(abc(), &mut ex, &mut lp);
    let forward = IR::SimpleProjection { input: Node(9), columns: Schema::new() };
    match b.add_alp_optimized(forward) {
        Ok(_) => panic!("a node that reads forward was accepted"),
        Err(e) => {
            assert_eq!(e.kind, ErrorKind::InvalidOperation);
            assert_eq!(e.context, vec!["optimizing 'simple_projection' failed"]);
        },
    }
    assert_eq!(lp.len(), 2);
    assert!(!plan_is_wf(&lp));
}

#[test]
fn add_alp_optimized_names_a_missing_column() {
    let mut ex: Arena<AExpr> = Arena::new();
    let mut lp: Arena<IR> = Arena::new();
    let k = col_ir(&mut ex, "a");
    let missing = col_ir(&mut ex, "nope");
    let b = IRBuilder::from_lp(abc(), &mut ex, &mut lp);
    let node = IR::GroupBy {
        input: Node(0),
        keys: vec![k],
        aggs: vec![missing],
        schema: Schema::new(),
        apply: None,
        maintain_order: false,
        options: no_groups(),
    };
    match b.add_alp_optimized(node) {
        Ok(_) => panic!("a missing column was accepted"),
        Err(e) => {
            assert_eq!(e.kind, ErrorKind::ColumnNotFound);
            assert_eq!(e.subject, "nope");
            assert_eq!(e.context, vec!["optimizing 'group_by' failed"]);
        },
    }
}

#[test]
fn add_expr_lowers_the_tree_into_the_arena() {
    let mut ex: Arena<AExpr> = Arena::new();
    let mut lp: Arena<IR> = Arena::new();
    let mut b = IRBuilder::from_lp(abc(), &mut ex, &mut lp);
    let tree = Expr::Alias(
        Box::new(Expr::BinaryExpr {
            left: Box::new(Expr::Column("a".to_string())),
            op: Operator::Lt,
            right: Box::new(Expr::Cast {
                expr: Box::new(Expr::Column("b".to_string())),
                dtype: DataType::Int64,
            }),
        }),
        "small".to_string(),
    );
    let e = b.add_expr(tree).unwrap();
    assert_eq!(e.node(), Node(3));
    assert!(matches!(&e.output_name, OutputName::Alias(n) if n == "small"));
    assert_eq!(e.output_dtype, None);
    let b = b.project(vec![e], ProjectionOptions::default());
    assert_eq!(b.schema(), schema_of(&[("small", DataType::Boolean)]));
    assert_eq!(b.node(), Node(1));
    assert_eq!(ex.len(), 4);
    assert!(matches!(ex.get(Node(0)), AExpr::Column(n) if n == "a"));
    assert!(matches!(ex.get(Node(1)), AExpr::Column(n) if n == "b"));
    assert!(matches!(ex.get(Node(2)), AExpr::Cast { expr: Node(1), dtype: DataType::Int64 }));
    assert!(matches!(
        ex.get(Node(3)),
        AExpr::BinaryExpr { left: Node(0), op: Operator::Lt, right: Node(2) }
    ));
}

#[test]
fn add_expr_reports_what_does_not_resolve() {
    let mut ex: Arena<AExpr> = Arena::new();
    let mut lp: Arena<IR> = Arena::new();
    let mut b = IRBuilder::from_lp(abc(), &mut ex, &mut lp);
    let e = b.add_expr(Expr::Agg {
        kind: AggKind::Max,
        input: Box::new(Expr::Column("zz".to_string())),
    });
    let e = e.unwrap_err();
    assert_eq!(e.kind, ErrorKind::ColumnNotFound);
    assert_eq!(e.subject, "zz");
    let named = b.add_expr(Expr::Len).unwrap();
    assert!(matches!(&named.output_name, OutputName::LiteralLhs(n) if n == "len"));
    let named = b.add_expr(Expr::Column("c".to_string())).unwrap();
    assert!(matches!(&named.output_name, OutputName::ColumnLhs(n) if n == "c"));
    assert_eq!(b.node(), Node(0));
    assert_eq!(ex.len(), 4);
}

#[test]
fn node_names_are_the_kinds() {
    assert_eq!(abc().name(), "scan");
    assert_eq!(IR::Invalid.name(), "invalid");
    assert_eq!(IR::default().name(), "invalid");
    assert_eq!(IR::SimpleProjection { input: Node(0), columns: Schema::new() }.name(), "simple_projection");
    let hstack = IR::HStack {
        input: Node(0),
        exprs: vec![],
        schema: Schema::new(),
        options: ProjectionOptions::default(),
    };
    assert_eq!(hstack.name(), "with_columns");
    assert!(hstack.has_inputs_before(1));
    assert!(!hstack.has_inputs_before(0));
}

#[test]
fn add_alp_optimized_puts_in_the_conversions() {
    let mut ex: Arena<AExpr> = Arena::new();
    let mut lp: Arena<IR> = Arena::new();
    let wide = col(&mut ex, "wide");
    let narrow = col(&mut ex, "narrow");
    let sum = ex.add(AExpr::BinaryExpr { left: wide, op: Operator::Plus, right: narrow });
    let mixed = ExprIR::new(sum, OutputName::Alias("sum".to_string()));
    let plain = col_ir(&mut ex, "wide");
    let input = scan(&[("wide", DataType::Int64), ("narrow", DataType::Int8)]);
    let b = IRBuilder::from_lp(input, &mut ex, &mut lp);
    let node = IR::Select {
        input: Node(0),
        expr: vec![mixed, plain],
        schema: schema_of(&[("sum", DataType::Int64), ("wide", DataType::Int64)]),
        options: ProjectionOptions::default(),
    };
    let b = match b.add_alp_optimized(node) {
        Ok(b) => b,
        Err(e) => panic!("{:?}", e),
    };
    assert_eq!(b.node(), Node(1));
    assert_eq!(ex.len(), 6);
    assert!(matches!(ex.get(Node(4)), AExpr::Cast { expr: Node(1), dtype: DataType::Int64 }));
    assert!(matches!(
        ex.get(Node(5)),
        AExpr::BinaryExpr { left: Node(0), op: Operator::Plus, right: Node(4) }
    ));
    match lp.get(Node(1)) {
        IR::Select { expr, .. } => {
            assert_eq!(expr.len(), 2);
            assert_eq!(expr[0].node(), Node(5));
            assert!(matches!(&expr[0].output_name, OutputName::Alias(n) if n == "sum"));
            assert_eq!(expr[1].node(), Node(3));
            let input = node_schema(&lp, Node(0));
            let f = expr[0].field(&input, Context::Default, &ex).unwrap();
            assert_eq!((f.name.as_str(), f.dtype), ("sum", DataType::Int64));
        },
        other => panic!("{:?}", other),
    }
}

#[test]
fn a_second_pass_finds_nothing_to_do() {
    let mut ex: Arena<AExpr> = Arena::new();
    let mut lp: Arena<IR> = Arena::new();
    let a = col(&mut ex, "a");
    let b_node = col(&mut ex, "b");
    let less = ex.add(AExpr::BinaryExpr { left: a, op: Operator::Lt, right: b_node });
    let by = ExprIR::new(less, OutputName::ColumnLhs("a".to_string()));
    let b = IRBuilder::from_lp(abc(), &mut ex, &mut lp);
    let first = IR::Sort {
        input: Node(0),
        by_column: vec![by],
        slice: None,
        sort_options: SortMultipleOptions {
            descending: vec![false],
            nulls_last: vec![false],
            multithreaded: true,
            maintain_order: false,
            limit: None,
        },
    };
    let b = match b.add_alp_optimized(first) {
        Ok(b) => b,
        Err(e) => panic!("{:?}", e),
    };
    let grown = b.expr_arena.len();
    assert_eq!(grown, 5);
    let once = b.build();
    let handle = match &once {
        IR::Sort { by_column, .. } => by_column[0].node(),
        other => panic!("{:?}", other),
    };
    assert_eq!(handle, Node(4));
    let b = IRBuilder::new(Node(0), &mut ex, &mut lp);
    let b = match b.add_alp_optimized(once) {
        Ok(b) => b,
        Err(e) => panic!("{:?}", e),
    };
    assert_eq!(b.expr_arena.len(), grown);
    match b.build() {
        IR::Sort { by_column, .. } => assert_eq!(by_column[0].node(), handle),
        other => panic!("{:?}", other),
    }
}
