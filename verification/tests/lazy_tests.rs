use stratum_core::data::dataframe::DataFrame;
use stratum_core::data::series::Series;
use stratum_core::data::error::DataError;
use stratum_core::data::grouped::{AggOp, AggSpec};
use stratum_core::data::join::JoinType;
use stratum_core::data::lazy::{ColumnExpr, DataType, FilterPredicate, LazyFrame, LazyOp, LazySource, WindowFunc, WindowSpec};
use stratum_core::data::value::Value;

fn s(x: &str) -> String {
    x.to_string()
}

fn kinds(lf: &LazyFrame) -> Vec<String> {
    lf.operations()
        .iter()
        .map(|op| match op {
            LazyOp::Select(c) => format!("select {}", c.join(",")),
            LazyOp::Filter(FilterPredicate::Gt(c, _)) => format!("filter {c}>"),
            LazyOp::Filter(_) => "filter".to_string(),
            LazyOp::Limit(n) => format!("limit {n}"),
            LazyOp::Offset(n) => format!("offset {n}"),
            LazyOp::Sort { .. } => "sort".to_string(),
            _ => "other".to_string(),
        })
        .collect()
}

#[test]
fn plan_records_operations_in_order() {
    let lf = LazyFrame::scan_csv(s("data.csv"))
        .filter_gt(s("a"), Value::Int(0))
        .select(vec![s("a"), s("b")])
        .limit(2)
        .skip(1);
    assert_eq!(kinds(&lf), vec!["filter a>", "select a,b", "limit 2", "offset 1"]);
    assert!(matches!(lf.source(), LazySource::Csv(p) if p == "data.csv"));
}

#[test]
fn sort_builders() {
    let lf = LazyFrame::scan_json(s("x.json"))
        .sort(vec![s("a"), s("b")], false)
        .sort_by(vec![(s("c"), true), (s("d"), false)]);
    match &lf.operations()[0] {
        LazyOp::Sort { columns, ascending } => {
            assert_eq!(columns, &vec![s("a"), s("b")]);
            assert_eq!(ascending, &vec![false, false]);
        },
        _ => panic!("expected a sort"),
    }
    match &lf.operations()[1] {
        LazyOp::Sort { columns, ascending } => {
            assert_eq!(columns, &vec![s("c"), s("d")]);
            assert_eq!(ascending, &vec![true, false]);
        },
        _ => panic!("expected a sort"),
    }
}

#[test]
fn optimize_merges_limits_and_keeps_the_rest() {
    let lf = LazyFrame::scan_parquet(s("t.parquet"))
        .select(vec![s("a"), s("b")])
        .limit(5)
        .filter_gt(s("a"), Value::Int(1))
        .limit(3)
        .limit(7)
        .select(vec![s("a")])
        .filter_null(s("b"))
        .head(2)
        .head(1)
        .tail(7);
    let opt = lf.optimize();
    assert_eq!(
        kinds(&opt),
        vec!["select a,b", "limit 5", "filter a>", "limit 3", "select a", "filter", "limit 1", "other"]
    );
}

#[test]
fn optimize_twice_is_optimize_once() {
    let build = || {
        LazyFrame::scan_csv(s("f"))
            .limit(4)
            .limit(9)
            .offset(2)
            .filter_lt(s("x"), Value::Int(3))
            .select(vec![s("x")])
            .select(vec![s("y")])
    };
    let once = build().optimize();
    let twice = build().optimize().optimize();
    assert_eq!(kinds(&once), kinds(&twice));
    assert_eq!(kinds(&once), vec!["limit 4", "offset 2", "filter", "select x", "select y"]);
}

#[test]
fn join_and_window_builders() {
    let right = LazyFrame::scan_csv(s("r.csv"));
    let lf = LazyFrame::scan_csv(s("l.csv"))
        .left_join(right, "id")
        .with_row_number(s("rn"))
        .fill_null(Value::Int(0))
        .drop_nulls()
        .distinct()
        .unique()
        .distinct_by(vec![s("id")])
        .rename(vec![(s("a"), s("b"))])
        .drop(vec![s("c")])
        .explode(s("tags"));
    let ops = lf.operations();
    assert_eq!(ops.len(), 10);
    match &ops[0] {
        LazyOp::Join { spec, .. } => {
            assert_eq!(spec.join_type, JoinType::Left);
            assert_eq!(spec.left_column, "id");
        },
        _ => panic!("expected a join"),
    }
    match &ops[1] {
        LazyOp::Window(w) => {
            assert_eq!(w.func, WindowFunc::RowNumber);
            assert_eq!(w.output_name, "rn");
            assert!(w.column.is_empty());
        },
        _ => panic!("expected a window"),
    }
}

#[test]
fn group_by_builder() {
    let g = LazyFrame::scan_csv(s("sales.csv"))
        .group_by(vec![s("region")])
        .sum("amount", "total")
        .count("n")
        .mean("amount", "avg");
    assert_eq!(g.group_columns(), &[s("region")]);
    let ops: Vec<AggOp> = g.agg_specs().iter().map(|a| a.op).collect();
    assert_eq!(ops, vec![AggOp::Sum, AggOp::Count, AggOp::Mean]);
    assert_eq!(g.agg_specs()[0].output_name, "total");
}

#[test]
fn filter_and_join_builders() {
    let lf = LazyFrame::scan_csv(s("a.csv"))
        .filter_eq(s("k"), Value::String(s("x")))
        .filter_not_null(s("k"))
        .filter_in(s("n"), vec![Value::Int(1), Value::Int(2)])
        .filter_between(s("n"), Value::Int(0), Value::Int(9))
        .inner_join(LazyFrame::scan_csv(s("b.csv")), "k")
        .inner_join_cols(LazyFrame::scan_csv(s("c.csv")), "k", "kk")
        .left_join_cols(LazyFrame::scan_csv(s("d.csv")), "k", "kd")
        .right_join(LazyFrame::scan_csv(s("e.csv")), "k")
        .outer_join(LazyFrame::scan_csv(s("f.csv")), "k");
    let ops = lf.operations();
    assert_eq!(ops.len(), 9);
    assert!(matches!(&ops[0], LazyOp::Filter(FilterPredicate::Eq(c, Value::String(v))) if c == "k" && v == "x"));
    assert!(matches!(&ops[1], LazyOp::Filter(FilterPredicate::IsNotNull(_))));
    assert!(matches!(&ops[2], LazyOp::Filter(FilterPredicate::In(_, v)) if v.len() == 2));
    assert!(matches!(&ops[3], LazyOp::Filter(FilterPredicate::Between(..))));
    let types: Vec<JoinType> = ops[4..]
        .iter()
        .map(|op| match op {
            LazyOp::Join { spec, .. } => spec.join_type,
            _ => panic!("expected a join"),
        })
        .collect();
    assert_eq!(types, vec![JoinType::Inner, JoinType::Inner, JoinType::Left, JoinType::Right, JoinType::Outer]);
    match &ops[5] {
        LazyOp::Join { spec, .. } => assert_eq!(spec.right_column, "kk"),
        _ => panic!("expected a join"),
    }
    let optimized = lf.optimize();
    assert_eq!(optimized.operations().len(), 9);
}

#[test]
fn computed_columns_and_aggregations() {
    let expr = ColumnExpr::Cast(
        Box::new(ColumnExpr::Add(Box::new(ColumnExpr::Column(s("a"))), Box::new(ColumnExpr::Literal(Value::Int(1))))),
        DataType::String,
    );
    let g = LazyFrame::scan_json(s("j"))
        .with_column(s("b"), expr)
        .group_by(vec![])
        .agg(vec![AggSpec::count("n"), AggSpec::max("b", "m")])
        .min("b", "lo")
        .first("b", "f")
        .last("b", "l")
        .std_dev("b", "sd")
        .var("b", "v")
        .median("b", "med")
        .max("b", "hi");
    let ops: Vec<AggOp> = g.agg_specs().iter().map(|a| a.op).collect();
    assert_eq!(
        ops,
        vec![AggOp::Count, AggOp::Max, AggOp::Min, AggOp::First, AggOp::Last, AggOp::Std, AggOp::Var, AggOp::Median, AggOp::Max]
    );
    assert!(matches!(&g.source().operations()[0], LazyOp::WithColumn { name, .. } if name == "b"));
}

fn table() -> Vec<(String, Vec<Value>)> {
    vec![
        (s("a"), vec![Value::Int(1), Value::Int(2), Value::Int(3), Value::Null]),
        (
            s("c"),
            vec![Value::String(s("x")), Value::String(s("yz")), Value::String(s("xy")), Value::String(s("w"))],
        ),
    ]
}

fn eval(p: &FilterPredicate) -> Result<Vec<usize>, DataError> {
    LazyFrame::evaluate_predicate(&table(), 4, p)
}

#[test]
fn predicate_comparisons() {
    assert_eq!(eval(&FilterPredicate::Gt(s("a"), Value::Int(1))).unwrap(), vec![1, 2]);
    assert_eq!(eval(&FilterPredicate::Ge(s("a"), Value::Int(2))).unwrap(), vec![1, 2]);
    assert_eq!(eval(&FilterPredicate::Lt(s("a"), Value::Int(2))).unwrap(), vec![0]);
    assert_eq!(eval(&FilterPredicate::Le(s("c"), Value::String(s("xy")))).unwrap(), vec![0, 2, 3]);
    assert_eq!(eval(&FilterPredicate::Eq(s("a"), Value::Int(3))).unwrap(), vec![2]);
    assert_eq!(eval(&FilterPredicate::Ne(s("a"), Value::Int(3))).unwrap(), vec![0, 1, 3]);
    assert_eq!(eval(&FilterPredicate::IsNull(s("a"))).unwrap(), vec![3]);
    assert_eq!(eval(&FilterPredicate::IsNotNull(s("a"))).unwrap(), vec![0, 1, 2]);
    assert_eq!(eval(&FilterPredicate::Between(s("a"), Value::Int(2), Value::Int(3))).unwrap(), vec![1, 2]);
}

#[test]
fn predicate_membership_and_strings() {
    assert_eq!(eval(&FilterPredicate::In(s("a"), vec![Value::Int(1), Value::Null])).unwrap(), vec![0, 3]);
    assert_eq!(eval(&FilterPredicate::NotIn(s("a"), vec![Value::Int(1), Value::Null])).unwrap(), vec![1, 2]);
    assert_eq!(eval(&FilterPredicate::Contains(s("c"), s("y"))).unwrap(), vec![1, 2]);
    assert_eq!(eval(&FilterPredicate::StartsWith(s("c"), s("x"))).unwrap(), vec![0, 2]);
    assert_eq!(eval(&FilterPredicate::EndsWith(s("c"), s("z"))).unwrap(), vec![1]);
}

#[test]
fn predicate_combinations() {
    let gt1 = || Box::new(FilterPredicate::Gt(s("a"), Value::Int(1)));
    let sx = || Box::new(FilterPredicate::StartsWith(s("c"), s("x")));
    assert_eq!(eval(&FilterPredicate::And(gt1(), sx())).unwrap(), vec![2]);
    assert_eq!(eval(&FilterPredicate::Or(gt1(), sx())).unwrap(), vec![0, 1, 2]);
    assert_eq!(eval(&FilterPredicate::Not(gt1())).unwrap(), vec![0, 3]);
    assert_eq!(
        eval(&FilterPredicate::Not(Box::new(FilterPredicate::Not(gt1())))).unwrap(),
        eval(&FilterPredicate::Gt(s("a"), Value::Int(1))).unwrap()
    );
}

#[test]
fn predicate_on_missing_column() {
    match eval(&FilterPredicate::And(
        Box::new(FilterPredicate::IsNull(s("nope"))),
        Box::new(FilterPredicate::IsNull(s("gone"))),
    )) {
        Err(DataError::ColumnNotFound(c)) => assert_eq!(c, "nope"),
        other => panic!("unexpected {other:?}"),
    }
}

fn window(func: WindowFunc, column: &str, partition_by: &[&str]) -> WindowSpec {
    WindowSpec {
        column: s(column),
        func,
        partition_by: partition_by.iter().map(|p| s(p)).collect(),
        order_by: vec![],
        output_name: s("w"),
    }
}

fn sales() -> Vec<(String, Vec<Value>)> {
    vec![
        (
            s("region"),
            vec![
                Value::String(s("N")),
                Value::String(s("S")),
                Value::String(s("N")),
                Value::String(s("N")),
                Value::String(s("S")),
            ],
        ),
        (s("amount"), vec![Value::Int(10), Value::Int(20), Value::Null, Value::Int(40), Value::Int(50)]),
    ]
}

fn ints(xs: &[i64]) -> Vec<Value> {
    xs.iter().map(|x| Value::Int(*x)).collect()
}

#[test]
fn window_row_number_plain_and_partitioned() {
    let plain = LazyFrame::window_values(&sales(), 5, &window(WindowFunc::RowNumber, "amount", &[])).unwrap();
    assert_eq!(plain, ints(&[1, 2, 3, 4, 5]));
    let parts = LazyFrame::window_values(&sales(), 5, &window(WindowFunc::RowNumber, "amount", &["region"])).unwrap();
    assert_eq!(parts, ints(&[1, 1, 2, 3, 2]));
}

#[test]
fn window_ranks_and_counts_are_row_places() {
    for f in [WindowFunc::Rank, WindowFunc::DenseRank, WindowFunc::CumCount] {
        assert_eq!(LazyFrame::window_values(&sales(), 5, &window(f, "missing", &["missing"])).unwrap(), ints(&[1, 2, 3, 4, 5]));
    }
}

#[test]
fn window_lead_lag_first_last() {
    let lead = LazyFrame::window_values(&sales(), 5, &window(WindowFunc::Lead(2), "amount", &[])).unwrap();
    assert_eq!(lead, vec![Value::Null, Value::Int(40), Value::Int(50), Value::Null, Value::Null]);
    let lag = LazyFrame::window_values(&sales(), 5, &window(WindowFunc::Lag(1), "amount", &[])).unwrap();
    assert_eq!(lag, vec![Value::Null, Value::Int(10), Value::Int(20), Value::Null, Value::Int(40)]);
    let first = LazyFrame::window_values(&sales(), 5, &window(WindowFunc::First, "region", &[])).unwrap();
    assert_eq!(first, vec![Value::String(s("N")); 5]);
    let last = LazyFrame::window_values(&sales(), 5, &window(WindowFunc::Last, "amount", &[])).unwrap();
    assert_eq!(last, ints(&[50, 50, 50, 50, 50]));
}

#[test]
fn window_ntile() {
    let tiles = LazyFrame::window_values(&sales(), 5, &window(WindowFunc::Ntile(2), "amount", &[])).unwrap();
    assert_eq!(tiles, ints(&[1, 1, 1, 2, 2]));
    let quartiles = LazyFrame::window_values(&sales(), 5, &window(WindowFunc::Ntile(4), "amount", &[])).unwrap();
    assert_eq!(quartiles, ints(&[1, 1, 2, 3, 4]));
}

#[test]
fn window_missing_columns_and_empty_tables() {
    assert!(matches!(
        LazyFrame::window_values(&sales(), 5, &window(WindowFunc::Lag(1), "price", &[])),
        Err(DataError::ColumnNotFound(c)) if c == "price"
    ));
    assert!(matches!(
        LazyFrame::window_values(&sales(), 5, &window(WindowFunc::RowNumber, "amount", &["region", "store"])),
        Err(DataError::ColumnNotFound(c)) if c == "store"
    ));
    let empty: Vec<(String, Vec<Value>)> = vec![(s("a"), vec![])];
    assert!(LazyFrame::window_values(&empty, 0, &window(WindowFunc::First, "missing", &[])).unwrap().is_empty());
}

fn col(name: &str) -> Box<ColumnExpr> {
    Box::new(ColumnExpr::Column(s(name)))
}

fn lit(v: Value) -> Box<ColumnExpr> {
    Box::new(ColumnExpr::Literal(v))
}

fn people() -> Vec<(String, Vec<Value>)> {
    vec![
        (s("age"), vec![Value::Int(30), Value::Int(-7), Value::Null]),
        (s("name"), vec![Value::String(s("ann")), Value::Null, Value::String(s("cy"))]),
        (s("flag"), vec![Value::Bool(true), Value::Bool(false), Value::Null]),
        (s("code"), vec![Value::String(s("42")), Value::String(s("-5")), Value::String(s("4x"))]),
    ]
}

fn ev(e: &ColumnExpr) -> Vec<Value> {
    LazyFrame::evaluate_expr(&people(), 3, e).unwrap()
}

#[test]
fn expr_columns_literals_and_arithmetic() {
    assert_eq!(ev(&ColumnExpr::Column(s("age"))), vec![Value::Int(30), Value::Int(-7), Value::Null]);
    assert_eq!(ev(&ColumnExpr::Literal(Value::Bool(true))), vec![Value::Bool(true); 3]);
    assert_eq!(
        ev(&ColumnExpr::Add(col("age"), lit(Value::Int(5)))),
        vec![Value::Int(35), Value::Int(-2), Value::Null]
    );
    assert_eq!(ev(&ColumnExpr::Sub(col("age"), col("age"))), vec![Value::Int(0), Value::Int(0), Value::Null]);
    assert_eq!(
        ev(&ColumnExpr::Mul(col("age"), lit(Value::Int(-2)))),
        vec![Value::Int(-60), Value::Int(14), Value::Null]
    );
    assert_eq!(
        ev(&ColumnExpr::Add(col("name"), lit(Value::String(s("!"))))),
        vec![Value::String(s("ann!")), Value::Null, Value::String(s("cy!"))]
    );
}

#[test]
fn expr_remainder_takes_the_sign_of_the_dividend() {
    assert_eq!(
        ev(&ColumnExpr::Mod(col("age"), lit(Value::Int(4)))),
        vec![Value::Int(2), Value::Int(-3), Value::Null]
    );
    assert_eq!(ev(&ColumnExpr::Mod(col("age"), lit(Value::Int(0)))), vec![Value::Null; 3]);
    assert_eq!(ev(&ColumnExpr::Div(col("age"), lit(Value::Int(0)))), vec![Value::Null; 3]);
}

#[test]
fn expr_negation_and_absolute_value() {
    assert_eq!(ev(&ColumnExpr::Neg(col("age"))), vec![Value::Int(-30), Value::Int(7), Value::Null]);
    assert_eq!(ev(&ColumnExpr::Abs(col("age"))), vec![Value::Int(30), Value::Int(7), Value::Null]);
    assert_eq!(ev(&ColumnExpr::Neg(col("name"))), vec![Value::Null; 3]);
}

#[test]
fn expr_concat_and_coalesce() {
    let e = ColumnExpr::Concat(vec![ColumnExpr::Column(s("name")), ColumnExpr::Column(s("age")), ColumnExpr::Column(s("flag"))]);
    assert_eq!(
        ev(&e),
        vec![Value::String(s("ann30true")), Value::String(s("-7false")), Value::String(s("cy"))]
    );
    let c = ColumnExpr::Coalesce(vec![ColumnExpr::Column(s("name")), ColumnExpr::Column(s("age")), ColumnExpr::Literal(Value::Int(0))]);
    assert_eq!(ev(&c), vec![Value::String(s("ann")), Value::Int(-7), Value::String(s("cy"))]);
}

#[test]
fn expr_casts() {
    assert_eq!(
        ev(&ColumnExpr::Cast(col("code"), DataType::Int)),
        vec![Value::Int(42), Value::Int(-5), Value::Null]
    );
    assert_eq!(
        ev(&ColumnExpr::Cast(col("flag"), DataType::Int)),
        vec![Value::Int(1), Value::Int(0), Value::Null]
    );
    assert_eq!(
        ev(&ColumnExpr::Cast(col("age"), DataType::String)),
        vec![Value::String(s("30")), Value::String(s("-7")), Value::String(s(""))]
    );
    assert_eq!(
        ev(&ColumnExpr::Cast(col("age"), DataType::Bool)),
        vec![Value::Bool(true), Value::Bool(true), Value::Null]
    );
    assert_eq!(
        ev(&ColumnExpr::Cast(lit(Value::String(s(""))), DataType::Bool)),
        vec![Value::Bool(false); 3]
    );
}

#[test]
fn expr_case_first_matching_when_wins() {
    let e = ColumnExpr::Case {
        when_then: vec![
            (FilterPredicate::Gt(s("age"), Value::Int(0)), ColumnExpr::Literal(Value::String(s("pos")))),
            (FilterPredicate::IsNotNull(s("age")), ColumnExpr::Literal(Value::String(s("some")))),
        ],
        otherwise: lit(Value::String(s("none"))),
    };
    assert_eq!(ev(&e), vec![Value::String(s("pos")), Value::String(s("some")), Value::String(s("none"))]);
}

#[test]
fn expr_missing_columns() {
    let r = LazyFrame::evaluate_expr(&people(), 3, &ColumnExpr::Add(col("salary"), col("bonus")));
    assert!(matches!(r, Err(DataError::ColumnNotFound(c)) if c == "salary"));
    let case = ColumnExpr::Case {
        when_then: vec![(FilterPredicate::IsNull(s("zip")), ColumnExpr::Literal(Value::Int(1)))],
        otherwise: lit(Value::Int(0)),
    };
    let r = LazyFrame::evaluate_expr(&people(), 3, &case);
    assert!(matches!(r, Err(DataError::ColumnNotFound(c)) if c == "zip"));
}


fn test_df() -> DataFrame {
    let a = Series::from_values("a", &[Value::Int(1), Value::Int(2), Value::Int(3)]).unwrap();
    let b = Series::from_values("b", &[Value::Int(10), Value::Int(20), Value::Int(30)]).unwrap();
    let c = Series::from_values("c", &[Value::String(s("x")), Value::String(s("y")), Value::String(s("z"))]).unwrap();
    DataFrame::from_series(vec![a, b, c]).unwrap()
}

#[test]
fn test_lazy_select() {
    let df = test_df();
    let result = LazyFrame::new(df).select(vec![s("a"), s("c")]).collect().unwrap();
    assert_eq!(result.num_columns(), 2);
    assert_eq!(result.columns(), vec!["a", "c"]);
}

#[test]
fn test_lazy_filter() {
    let df = test_df();
    let result = LazyFrame::new(df).filter_gt(s("a"), Value::Int(1)).collect().unwrap();
    assert_eq!(result.num_rows(), 2);
}

#[test]
fn test_lazy_limit() {
    let df = test_df();
    let result = LazyFrame::new(df).limit(2).collect().unwrap();
    assert_eq!(result.num_rows(), 2);
}

#[test]
fn test_lazy_chain() {
    let df = test_df();
    let result = LazyFrame::new(df)
        .filter_gt(s("a"), Value::Int(0))
        .select(vec![s("a"), s("b")])
        .limit(2)
        .collect()
        .unwrap();
    assert_eq!(result.num_rows(), 2);
    assert_eq!(result.num_columns(), 2);
}

#[test]
fn limit_then_filter_keeps_its_order() {
    let df = DataFrame::from_series(vec![Series::from_ints("a", vec![1, 2, 3])]).unwrap();
    let lf = LazyFrame::new(df).limit(1).filter_gt(s("a"), Value::Int(1));
    assert_eq!(kinds(&lf.optimize()), vec!["limit 1", "filter a>"]);
    let df = DataFrame::from_series(vec![Series::from_ints("a", vec![1, 2, 3])]).unwrap();
    let result = LazyFrame::new(df).limit(1).filter_gt(s("a"), Value::Int(1)).collect().unwrap();
    assert_eq!(result.num_rows(), 0);
}

#[test]
fn tail_keeps_the_last_rows_and_offset_skips() {
    let result = LazyFrame::new(test_df()).tail(2).collect().unwrap();
    assert_eq!(result.column("a").unwrap().get(0).unwrap(), Value::Int(2));
    assert_eq!(result.num_rows(), 2);
    let skipped = LazyFrame::new(test_df()).offset(2).collect().unwrap();
    assert_eq!(skipped.num_rows(), 1);
    assert_eq!(skipped.column("a").unwrap().get(0).unwrap(), Value::Int(3));
}

#[test]
fn sort_rename_window_and_computed_column_run() {
    let result = LazyFrame::new(test_df())
        .sort(vec![s("a")], false)
        .rename(vec![(s("b"), s("bb"))])
        .with_row_number(s("rn"))
        .with_column(s("sum"), ColumnExpr::Add(Box::new(ColumnExpr::Column(s("a"))), Box::new(ColumnExpr::Column(s("bb")))))
        .collect()
        .unwrap();
    assert_eq!(result.columns(), vec!["a", "bb", "c", "rn", "sum"]);
    assert_eq!(result.column("a").unwrap().get(0).unwrap(), Value::Int(3));
    assert_eq!(result.column("rn").unwrap().get(0).unwrap(), Value::Int(1));
    assert_eq!(result.column("sum").unwrap().get(0).unwrap(), Value::Int(33));
}

#[test]
fn joins_run_the_right_plan() {
    let right = DataFrame::from_series(vec![
        Series::from_ints("a", vec![1, 3]),
        Series::from_ints("w", vec![100, 300]),
    ])
    .unwrap();
    let result = LazyFrame::new(test_df())
        .inner_join(LazyFrame::new(right).filter_gt(s("w"), Value::Int(150)), "a")
        .collect()
        .unwrap();
    assert_eq!(result.num_rows(), 1);
    assert_eq!(result.column("a").unwrap().get(0).unwrap(), Value::Int(3));
}

#[test]
fn plan_errors_stop_the_run() {
    let err = LazyFrame::new(test_df()).select(vec![s("zz")]).limit(1).collect();
    assert!(matches!(err, Err(DataError::ColumnNotFound(c)) if c == "zz"));
    let err = LazyFrame::new(test_df()).filter_gt(s("q"), Value::Int(0)).collect();
    assert!(matches!(err, Err(DataError::ColumnNotFound(c)) if c == "q"));
}

#[test]
fn execute_runs_on_a_given_table_and_groups() {
    let plan = LazyFrame::scan_csv(s("unused.csv")).filter_gt(s("a"), Value::Int(1));
    let result = plan.execute(test_df()).unwrap();
    assert_eq!(result.num_rows(), 2);
    let sales = DataFrame::from_series(vec![
        Series::from_strings("region", vec!["N", "S", "N"]),
        Series::from_ints("amount", vec![1, 2, 4]),
    ])
    .unwrap();
    let grouped = LazyFrame::scan_csv(s("unused.csv")).group_by(vec![s("region")]).sum("amount", "total");
    let out = grouped.execute(sales).unwrap();
    assert_eq!(out.column("total").unwrap().get(0).unwrap(), Value::Int(5));
    assert_eq!(out.column("total").unwrap().get(1).unwrap(), Value::Int(2));
}

#[test]
fn grouped_plan_collects_from_its_table() {
    let sales = DataFrame::from_series(vec![
        Series::from_strings("region", vec!["N", "S", "N", "S"]),
        Series::from_ints("amount", vec![1, 2, 4, 8]),
    ])
    .unwrap();
    let out = LazyFrame::new(sales)
        .filter_gt(s("amount"), Value::Int(1))
        .group_by(vec![s("region")])
        .count("n")
        .collect()
        .unwrap();
    assert_eq!(out.num_rows(), 2);
    assert_eq!(out.column("n").unwrap().get(0).unwrap(), Value::Int(1));
    assert_eq!(out.column("n").unwrap().get(1).unwrap(), Value::Int(2));
}
