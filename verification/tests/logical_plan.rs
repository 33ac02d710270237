use std::sync::Arc;

use polars_join::datatypes::{AnyValue, DataType, Field, PolarsError, Schema};
use polars_join::expr::{
    col, replace_wildcard_with_column, AggKind, Context, Expr, LiteralValue, Operator, UnaryOp,
};
use polars_join::frame::DataFrame;
use polars_join::hash_join::JoinType;
use polars_join::logical_plan::{
    check_projection, contains_name, det_join_schema, det_melt_schema, expressions_to_schema, is_rewritable,
    prepare_projection, rewrite_projections, AllowedOptimizations, DataFrameUdf, LogicalPlan, LogicalPlanBuilder,
};
use polars_join::plan_fmt::fmt_predicate;
use polars_join::series::Series;

#[derive(Debug)]
struct NoUdf;

struct Identity;

impl DataFrameUdf for Identity {
    fn call_udf(&self, df: DataFrame) -> Result<DataFrame, PolarsError> {
        Ok(df)
    }
}

type Ex = Expr<NoUdf>;
type Plan = LogicalPlan<NoUdf, Identity>;
type Builder = LogicalPlanBuilder<NoUdf, Identity>;

fn ints(name: &str, values: &[i32]) -> Series {
    Series::new(name, DataType::Int32, values.iter().map(|v| AnyValue::Int32(*v)).collect()).unwrap()
}

fn floats(name: &str, values: &[f64]) -> Series {
    Series::new(name, DataType::Float64, values.iter().map(|v| AnyValue::Float64(v.to_bits())).collect()).unwrap()
}

fn texts(name: &str, values: &[&str]) -> Series {
    Series::new(name, DataType::Utf8, values.iter().map(|v| AnyValue::Utf8(v.to_string())).collect()).unwrap()
}

fn get_df() -> DataFrame {
    DataFrame::new(vec![
        floats("sepal.length", &[5.1, 4.9, 4.7, 4.6, 5.0, 5.4, 4.6]),
        floats("sepal.width", &[3.5, 3.0, 3.2, 3.1, 3.6, 3.9, 3.4]),
        floats("petal.length", &[1.4, 1.4, 1.3, 1.5, 1.4, 1.7, 1.4]),
        floats("petal.width", &[0.2, 0.2, 0.2, 0.2, 0.2, 0.4, 0.3]),
        texts("variety", &["Setosa"; 7]),
    ])
    .unwrap()
}

fn lit(v: i32) -> Ex {
    Expr::Literal(LiteralValue::Int32(v))
}

fn lit_f(v: f64) -> Ex {
    Expr::Literal(LiteralValue::Float64(v.to_bits()))
}

fn binary(left: Ex, op: Operator, right: Ex) -> Ex {
    Expr::BinaryExpr { left: Box::new(left), op, right: Box::new(right) }
}

fn agg(kind: AggKind, e: Ex) -> Ex {
    Expr::Agg(kind, Box::new(e))
}

fn schema_names(schema: &Schema) -> Vec<String> {
    schema.fields().iter().map(|f| f.name().clone()).collect()
}

fn schema_types(schema: &Schema) -> Vec<DataType> {
    schema.fields().iter().map(|f| f.data_type()).collect()
}

fn texts_of(exprs: &[Ex]) -> Vec<String> {
    exprs.iter().map(|e| e.fmt_debug()).collect()
}

fn join_frames() -> (DataFrame, DataFrame) {
    let left = DataFrame::new(vec![
        ints("days", &[0, 1, 2, 3, 4]),
        floats("temp", &[22.1, 19.9, 7., 2., 3.]),
        floats("rain", &[0.1, 0.2, 0.3, 0.4, 0.5]),
    ])
    .unwrap();
    let right = DataFrame::new(vec![ints("days", &[1, 2]), floats("rain", &[0.1, 0.2])]).unwrap();
    (left, right)
}

fn left_join(left: DataFrame, right: DataFrame) -> Builder {
    Builder::from_existing_df(left).join(
        Builder::from_existing_df(right).build(),
        JoinType::Left,
        vec![col("days")],
        vec![col("days")],
        true,
        false,
    )
}

#[test]
fn test_lazy_arithmetic() {
    let df = get_df();
    let lp = Builder::from_existing_df(df)
        .project(vec![binary(col("sepal.width"), Operator::Multiply, lit(100)).alias("super_wide")])
        .sort("super_wide".to_string(), false)
        .build();

    println!("{}", lp.describe());
    assert_eq!(schema_names(lp.schema()), vec!["super_wide"]);
    assert_eq!(schema_types(lp.schema()), vec![DataType::Float64]);
}

#[test]
fn test_lazy_logical_plan_filter_and_alias_combined() {
    let df = get_df();
    let lp = Builder::from_existing_df(df)
        .filter(binary(col("sepal.width"), Operator::Lt, lit_f(3.5)))
        .project(vec![col::<NoUdf>("variety").alias("foo")])
        .build();

    println!("{}", lp.describe());
    assert_eq!(schema_names(lp.schema()), vec!["foo"]);
}

#[test]
fn test_lazy_logical_plan_schema() {
    let df = get_df();
    let lp = Builder::from_existing_df(df.duplicate())
        .project(vec![col::<NoUdf>("variety").alias("foo")])
        .build();

    println!("{:#?}", lp.schema().fields());
    assert!(lp.schema().field_with_name("foo").is_ok());

    let lp = Builder::from_existing_df(df)
        .groupby(Arc::new(vec![col("variety")]), vec![agg(AggKind::Min, col("sepal.width"))], None)
        .build();
    println!("{:#?}", lp.schema().fields());
    assert!(lp.schema().field_with_name("sepal.width_min").is_ok());
    assert_eq!(schema_names(lp.schema()), vec!["variety", "sepal.width_min"]);
}

#[test]
fn test_lazy_logical_plan_join() {
    let (left, right) = join_frames();

    // without selection
    {
        let lp = left_join(left.duplicate(), right.duplicate()).build();
        println!("{}", lp.describe());
        assert_eq!(schema_names(lp.schema()), vec!["days", "temp", "rain", "rain_right"]);
    }

    // with selection
    {
        let lp = left_join(left.duplicate(), right.duplicate()).project(vec![col("temp")]).build();
        println!("{}", lp.describe());
        assert_eq!(schema_names(lp.schema()), vec!["temp"]);
    }

    // with selection of a renamed column due to the join
    {
        let lp = left_join(left.duplicate(), right.duplicate())
            .project(vec![col("temp"), col("rain_right")])
            .build();
        println!("{}", lp.describe());
        assert_eq!(schema_names(lp.schema()), vec!["temp", "rain_right"]);
    }

    // with selection of the left and the right (renamed) column due to the join
    {
        let lp = left_join(left.duplicate(), right.duplicate())
            .project(vec![col("temp"), col("rain"), col("rain_right")])
            .build();
        println!("{}", lp.describe());
        assert_eq!(schema_names(lp.schema()), vec!["temp", "rain", "rain_right"]);
    }

    // with an extra alias
    {
        let lp = left_join(left.duplicate(), right.duplicate())
            .project(vec![col("temp"), col::<NoUdf>("rain").alias("foo"), col("rain_right")])
            .build();
        println!("{}", lp.describe());
        assert_eq!(schema_names(lp.schema()), vec!["temp", "foo", "rain_right"]);
    }

    // with an extra alias and a filter on it
    {
        let lp = left_join(left, right)
            .project(vec![col("temp"), col::<NoUdf>("rain").alias("foo"), col("rain_right")])
            .filter(binary(col("foo"), Operator::Lt, lit_f(0.3)))
            .build();
        println!("{}", lp.describe());
        assert_eq!(schema_names(lp.schema()), vec!["temp", "foo", "rain_right"]);
    }
}

#[test]
fn test_dot() {
    let left = DataFrame::new(vec![
        ints("days", &[0, 1, 2, 3, 4]),
        floats("temp", &[22.1, 19.9, 7., 2., 3.]),
        floats("rain", &[0.1, 0.2, 0.3, 0.4, 0.5]),
    ])
    .unwrap();
    let mut s = String::new();
    Builder::from_existing_df(left).project(vec![col("days")]).build().dot(&mut s, 0, "");
    println!("{}", s);
    assert_eq!(
        s,
        "graph  polars_query {\n\"π 1/3 [0]\" -- \"TABLE\nπ */3;\nσ -\n[1]\"\n"
    );
}

#[test]
fn describe_nests_the_inputs() {
    let (left, right) = join_frames();
    let lp = Builder::from_existing_df(left.duplicate()).project(vec![col("days")]).build();
    assert_eq!(
        lp.describe(),
        "SELECT 1 COLUMNS \nFROM\nTABLE: [\"days\", \"temp\", \"rain\"]; PROJECT */3 COLUMNS; SELECTION: None"
    );
    let lp = left_join(left, right)
        .filter(binary(col("temp"), Operator::Gt, lit(-5)))
        .slice(10, 200)
        .cache()
        .build();
    assert_eq!(
        lp.describe(),
        "CACHE SLICE FILTER\n\t[(temp) Gt (Int32(-5))]\nFROM\n\tJOIN\n\t(TABLE: [\"days\", \"temp\", \"rain\"]; \
         PROJECT */3 COLUMNS; SELECTION: None)\nWITH\n\t(TABLE: [\"days\", \"rain\"]; PROJECT */2 COLUMNS; \
         SELECTION: None)\nON (left: [days] right: [days]), offset: 10, len: 200"
    );
}

#[test]
fn dot_numbers_both_sides_of_a_join_alike() {
    let (left, right) = join_frames();
    let lp = left_join(left, right).sort("temp".to_string(), true).build();
    let mut s = String::new();
    lp.dot(&mut s, 0, "");
    assert_eq!(
        s,
        "graph  polars_query {\n\
         \"SORT by temp [0]\" -- \"JOIN left [days]; right: [days] [1]\"\n\
         \"JOIN left [days]; right: [days] [1]\" -- \"TABLE\nπ */3;\nσ -\n[2]\"\n\
         \"JOIN left [days]; right: [days] [1]\" -- \"TABLE\nπ */2;\nσ -\n[2]\"\n"
    );
}

#[test]
fn a_scan_at_the_root_writes_itself() {
    let schema = Arc::new(Schema::new(vec![Field::new("a", DataType::Int64)]));
    let lp: Plan = Builder::scan_csv("data.csv".to_string(), b',', true, false, 0, None, true, schema).build();
    let mut s = String::new();
    lp.dot(&mut s, 0, "");
    assert_eq!(s, "graph  polars_query {\n\"CSV SCAN data.csv;\nπ */1;\nσ -\n[0]\"");
    assert_eq!(lp.describe(), "CSV SCAN data.csv; PROJECT */1 COLUMNS; SELECTION: None");
}

#[test]
fn predicates_are_cut_in_the_graph() {
    assert_eq!(fmt_predicate::<NoUdf>(None), "-");
    let short = binary(col("a"), Operator::Eq, lit(1));
    assert_eq!(short.fmt_debug(), "[(a) Eq (Int32(1))]");
    assert_eq!(fmt_predicate(Some(&short)), "(a) Eq (Int32(1))");
    let long = binary(col("a_rather_long_name"), Operator::NotEq, lit(123456));
    assert_eq!(long.fmt_debug(), "[(a_rather_long_name) NotEq (Int32(123456))]");
    assert_eq!(fmt_predicate(Some(&long)), "(a_rather_long_name) NotE...");
}

#[test]
fn expressions_have_a_text() {
    let e: Ex = Expr::Cast { expr: Box::new(agg(AggKind::Sum, col("x"))), data_type: DataType::Float64 };
    assert_eq!(e.fmt_debug(), "CAST AGG SUM x TO Float64");
    let e: Ex = Expr::Unary(UnaryOp::IsNotNull, Box::new(col("x")));
    assert_eq!(e.fmt_debug(), "x IS NOT NULL");
    let e: Ex = Expr::Ternary {
        predicate: Box::new(col::<NoUdf>("x").is_null()),
        truthy: Box::new(Expr::Literal(LiteralValue::Utf8("n/a".to_string()))),
        falsy: Box::new(Expr::Shift { input: Box::new(col("x")), periods: -2 }),
    };
    assert_eq!(e.fmt_debug(), "\nWHEN x IS NULL\n\tUtf8(\"n/a\")\nOTHERWISE\n\tSHIFT x by -2");
    let e: Ex = Expr::Sort { expr: Box::new(Expr::Wildcard), reverse: true };
    assert_eq!(e.fmt_debug(), "* DESC");
    let e: Ex = Expr::Literal(LiteralValue::UInt64(18446744073709551615));
    assert_eq!(e.fmt_debug(), "UInt64(18446744073709551615)");
    let e: Ex = Expr::Literal(LiteralValue::Int64(i64::MIN));
    assert_eq!(e.fmt_debug(), "Int64(-9223372036854775808)");
    let e: Ex = Expr::Slice { input: Box::new(col("x")), offset: 0, length: 10 };
    assert_eq!(e.fmt_debug(), "SLICE x offset: 0 len: 10");
}

#[test]
fn wildcards_are_written_out() {
    let schema = get_df().schema();
    let out = rewrite_projections(vec![agg(AggKind::Max, Expr::Wildcard)], &schema);
    assert_eq!(
        texts_of(&out),
        vec![
            "AGG MAX sepal.length",
            "AGG MAX sepal.width",
            "AGG MAX petal.length",
            "AGG MAX petal.width",
            "AGG MAX variety"
        ]
    );
    // no wildcard: nothing changes
    let out = rewrite_projections(vec![col::<NoUdf>("variety"), lit(1)], &schema);
    assert_eq!(texts_of(&out), vec!["variety", "Int32(1)"]);
}

#[test]
fn count_of_all_columns_counts_the_first() {
    let schema = get_df().schema();
    let out = rewrite_projections(vec![agg(AggKind::Count, Expr::Wildcard)], &schema);
    assert_eq!(texts_of(&out), vec!["AGG COUNT sepal.length AS count"]);
    let out = rewrite_projections(vec![agg(AggKind::Count, Expr::Wildcard).alias("n")], &schema);
    assert_eq!(texts_of(&out), vec!["AGG COUNT sepal.length AS n"]);
}

#[test]
fn excluded_columns_leave_the_projection() {
    let schema = get_df().schema();
    let except: Ex = Expr::Unary(UnaryOp::Except, Box::new(col("sepal.width")));
    let out = rewrite_projections(vec![Expr::Wildcard, except], &schema);
    // the last expression takes the place of the one that goes
    assert_eq!(texts_of(&out), vec!["sepal.length", "variety", "petal.length", "petal.width"]);
    let except: Ex = Expr::Unary(UnaryOp::Except, Box::new(col("no such column")));
    let out = rewrite_projections(vec![col("variety"), except], &schema);
    assert_eq!(texts_of(&out), vec!["variety"]);
}

#[test]
fn the_rewrite_enters_every_operand() {
    let e: Ex = Expr::Ternary {
        predicate: Box::new(Expr::Wildcard),
        truthy: Box::new(Expr::Wildcard),
        falsy: Box::new(col("b")),
    };
    let out = replace_wildcard_with_column(e, "a");
    assert_eq!(out.fmt_debug(), "\nWHEN a\n\ta\nOTHERWISE\n\tb");
    assert!(!out.has_wildcard());
    let e: Ex = Expr::Unary(UnaryOp::Except, Box::new(Expr::Wildcard));
    assert_eq!(replace_wildcard_with_column(e, "a").fmt_debug(), "EXCEPT a");
    let e = binary(Expr::Wildcard, Operator::Plus, agg(AggKind::Mean, Expr::Wildcard));
    assert_eq!(replace_wildcard_with_column(e, "a").fmt_debug(), "[(a) Plus (AGG MEAN a)]");
    let e: Ex = Expr::Window {
        function: Box::new(agg(AggKind::Sum, Expr::Wildcard)),
        partition_by: Box::new(Expr::Wildcard),
        order_by: Some(Box::new(Expr::Wildcard)),
    };
    assert_eq!(
        replace_wildcard_with_column(e, "a").fmt_debug(),
        "AGG SUM a OVER (PARTITION BY a ORDER BY Some(a))"
    );
}

#[test]
fn projections_that_come_to_nothing_leave_the_plan() {
    let lp = Builder::from_existing_df(get_df()).project(vec![]).build();
    assert!(matches!(lp, LogicalPlan::DataFrameScan { .. }));
    let lp = Builder::from_existing_df(get_df()).project_local(vec![col("variety")]).build();
    assert!(matches!(lp, LogicalPlan::LocalProjection { .. }));
}

#[test]
fn fields_follow_the_expressions() {
    let schema = get_df().schema();
    let field = |e: Ex, ctxt| e.to_field(&schema, ctxt).map(|f| (f.name().clone(), f.data_type()));
    assert_eq!(field(col("variety"), Context::Other).unwrap(), ("variety".to_string(), DataType::Utf8));
    assert_eq!(
        field(agg(AggKind::Mean, col("variety")), Context::Aggregation).unwrap(),
        ("variety_mean".to_string(), DataType::Float64)
    );
    assert_eq!(
        field(agg(AggKind::Mean, col("variety")), Context::Other).unwrap(),
        ("variety".to_string(), DataType::Float64)
    );
    assert_eq!(
        field(agg(AggKind::Count, col("variety")), Context::Aggregation).unwrap(),
        ("variety_count".to_string(), DataType::UInt32)
    );
    assert_eq!(
        field(binary(col("sepal.width"), Operator::Lt, lit(3)), Context::Other).unwrap(),
        ("sepal.width".to_string(), DataType::Boolean)
    );
    assert_eq!(field(lit(3), Context::Other).unwrap(), ("lit".to_string(), DataType::Int32));
    assert_eq!(
        field(col::<NoUdf>("variety").is_null(), Context::Other).unwrap(),
        ("is_null".to_string(), DataType::Boolean)
    );
    match field(col("nope"), Context::Other) {
        Err(PolarsError::NotFound(name)) => assert_eq!(name, "nope"),
        other => panic!("{:?}", other),
    }
    match field(Expr::Wildcard, Context::Other) {
        Err(PolarsError::Invariant(_)) => {}
        other => panic!("{:?}", other),
    }
    match expressions_to_schema(&vec![col::<NoUdf>("variety"), col("x"), col("y")], &schema, Context::Other) {
        Err(PolarsError::NotFound(name)) => assert_eq!(name, "x"),
        other => panic!("{:?}", other),
    }
    let (exprs, out) = prepare_projection(vec![col::<NoUdf>("variety").alias("v")], &schema);
    assert_eq!(texts_of(&exprs), vec!["variety AS v"]);
    assert_eq!(schema_names(&out), vec!["v"]);
}

#[test]
fn with_columns_replaces_or_appends() {
    let lp = Builder::from_existing_df(get_df())
        .with_columns(vec![
            Expr::Cast { expr: Box::new(col("sepal.width")), data_type: DataType::Int32 },
            col::<NoUdf>("variety").alias("kind"),
        ])
        .build();
    assert_eq!(
        schema_names(lp.schema()),
        vec!["sepal.length", "sepal.width", "petal.length", "petal.width", "variety", "kind"]
    );
    assert_eq!(
        schema_types(lp.schema()),
        vec![
            DataType::Float64,
            DataType::Int32,
            DataType::Float64,
            DataType::Float64,
            DataType::Utf8,
            DataType::Utf8
        ]
    );
}

#[test]
fn a_filter_with_a_wildcard_asks_every_column() {
    let (_, right) = join_frames();
    let lp = Builder::from_existing_df(right)
        .filter(Expr::Unary(UnaryOp::IsNotNull, Box::new(Expr::Wildcard)))
        .build();
    match lp {
        LogicalPlan::Selection { predicate, .. } => {
            assert_eq!(predicate.fmt_debug(), "[(days IS NOT NULL) And (rain IS NOT NULL)]")
        }
        _ => panic!("not a selection"),
    }
}

#[test]
fn fill_none_covers_every_column() {
    let (_, right) = join_frames();
    let lp = Builder::from_existing_df(right).fill_none(lit(0)).build();
    match &lp {
        LogicalPlan::LocalProjection { expr, .. } => assert_eq!(
            texts_of(expr),
            vec![
                "\nWHEN days IS NULL\n\tInt32(0)\nOTHERWISE\n\tdays AS days",
                "\nWHEN rain IS NULL\n\tInt32(0)\nOTHERWISE\n\train AS rain"
            ]
        ),
        _ => panic!("not a local projection"),
    }
    assert_eq!(schema_names(lp.schema()), vec!["days", "rain"]);
    assert_eq!(schema_types(lp.schema()), vec![DataType::Int32, DataType::Int32]);
}

#[test]
fn melt_schema_puts_variable_and_value_last() {
    let schema = get_df().schema();
    let out = det_melt_schema(&vec!["sepal.width".to_string(), "petal.width".to_string()], &schema);
    assert_eq!(schema_names(&out), vec!["sepal.length", "petal.length", "variety", "variable", "value"]);
    assert_eq!(
        schema_types(&out),
        vec![DataType::Float64, DataType::Float64, DataType::Utf8, DataType::Utf8, DataType::Float64]
    );
    let lp = Builder::from_existing_df(get_df())
        .melt(Arc::new(vec!["variety".to_string()]), Arc::new(vec!["variety".to_string()]))
        .build();
    assert_eq!(schema_types(lp.schema()).last(), Some(&DataType::Utf8));
}

#[test]
fn the_schema_of_a_join_matches_the_joined_table() {
    let (left, right) = join_frames();
    let planned = det_join_schema(&left.schema(), &right.schema(), &vec!["days".to_string()]);
    for how in [JoinType::Inner, JoinType::Left, JoinType::Outer] {
        let joined = left.join(&right, &vec!["days"], &vec!["days"], how, Some(2)).unwrap();
        assert_eq!(schema_names(&joined.schema()), schema_names(&planned));
        assert_eq!(schema_types(&joined.schema()), schema_types(&planned));
    }
    assert_eq!(schema_names(&planned), vec!["days", "temp", "rain", "rain_right"]);
}

#[test]
fn schemas_merge_by_name() {
    let a = Schema::new(vec![Field::new("k", DataType::Int32), Field::new("v", DataType::Utf8)]);
    let b = Schema::new(vec![Field::new("v", DataType::Utf8), Field::new("w", DataType::Boolean)]);
    let merged = a.try_merge(&b).unwrap();
    assert_eq!(schema_names(&merged), vec!["k", "v", "w"]);
    let c = Schema::new(vec![Field::new("k", DataType::Int64)]);
    match merged.try_merge(&c) {
        Err(PolarsError::TypeMismatch(DataType::Int32, DataType::Int64)) => {}
        other => panic!("{:?}", other),
    }
}

#[test]
fn nodes_that_keep_the_columns_delegate_their_schema() {
    let lp: Plan = Builder::from_existing_df(get_df())
        .drop_duplicates(true, Some(vec!["variety".to_string()]))
        .explode(vec!["variety".to_string()])
        .map(Identity, AllowedOptimizations { predicate_pushdown: true, projection_pushdown: false }, None)
        .cache()
        .build();
    assert_eq!(schema_names(lp.schema()).len(), 5);
    let mut s = String::new();
    lp.dot(&mut s, 0, "");
    assert_eq!(
        s,
        "graph  polars_query {\n\
         \"CACHE [0]\" -- \"UDF [1]\"\n\
         \"UDF [1]\" -- \"EXPLODE [\"variety\"] [2]\"\n\
         \"EXPLODE [\"variety\"] [2]\" -- \"DISTINCT BY variety,  [3]\"\n\
         \"DISTINCT BY variety,  [3]\" -- \"TABLE\nπ */5;\nσ -\n[4]\"\n"
    );
    let with_schema: Plan = Builder::from_existing_df(get_df())
        .map(
            Identity,
            AllowedOptimizations { predicate_pushdown: false, projection_pushdown: false },
            Some(Arc::new(Schema::new(vec![Field::new("only", DataType::Null)]))),
        )
        .build();
    assert_eq!(schema_names(with_schema.schema()), vec!["only"]);
}

#[test]
fn the_default_plan_scans_nothing() {
    let lp: Plan = LogicalPlan::default();
    assert_eq!(lp.describe(), "CSV SCAN ; PROJECT */1 COLUMNS; SELECTION: None");
    assert_eq!(schema_types(lp.schema()), vec![DataType::Null]);
    assert_eq!(LiteralValue::Range { low: 0, high: 3, data_type: DataType::Int16 }.get_datatype(), DataType::Int16);
    assert_eq!(LiteralValue::Utf8("a".to_string()).get_datatype(), DataType::Utf8);
}

#[test]
fn aggregates_are_shown_in_the_graph() {
    let lp: Plan = Builder::from_existing_df(get_df())
        .groupby(
            Arc::new(vec![col("variety"), col("petal.width")]),
            vec![agg(AggKind::Min, col("sepal.width")), agg(AggKind::Quantile(0.5f64.to_bits()), col("sepal.length"))],
            None,
        )
        .with_columns(vec![col::<NoUdf>("variety").alias("kind"), lit(1), col("petal.width")])
        .build();
    assert_eq!(lp.dot_label(3), "STACK kind, petal.width, [3]");
    match &lp {
        LogicalPlan::HStack { input, .. } => assert_eq!(
            input.dot_label(1),
            "AGG [AGG MIN sepal.width, AGG QUANTILE sepal.length] BY varietypetal.width [1]"
        ),
        _ => panic!("not a stack"),
    }
    assert_eq!(
        schema_names(lp.schema()),
        vec!["variety", "petal.width", "sepal.width_min", "sepal.length_quantile", "kind", "lit"]
    );
}

#[test]
fn projections_can_be_checked_before_they_are_built() {
    let schema = get_df().schema();
    let empty = Schema::new(vec![]);
    let count_all = vec![agg(AggKind::Count, Expr::Wildcard)];
    assert!(is_rewritable(&count_all, &schema));
    assert!(!is_rewritable(&count_all, &empty));
    assert!(is_rewritable(&vec![agg(AggKind::Max, Expr::Wildcard)], &empty));
    let bad_except: Vec<Ex> = vec![Expr::Unary(UnaryOp::Except, Box::new(lit(1)))];
    assert!(!is_rewritable(&bad_except, &schema));
    match check_projection(&bad_except, &schema, Context::Other) {
        Err(PolarsError::Invariant(what)) => assert_eq!(what, "projection"),
        other => panic!("{:?}", other),
    }
    assert!(check_projection(&vec![Expr::Wildcard, col::<NoUdf>("variety")], &schema, Context::Other).is_ok());
    match check_projection(&vec![Expr::Wildcard, col::<NoUdf>("missing")], &schema, Context::Other) {
        Err(PolarsError::NotFound(name)) => assert_eq!(name, "missing"),
        other => panic!("{:?}", other),
    }
    // the excluded column is not looked up
    let except: Ex = Expr::Unary(UnaryOp::Except, Box::new(col("missing")));
    assert!(check_projection(&vec![col("variety"), except], &schema, Context::Aggregation).is_ok());
    assert!(contains_name(&vec!["a".to_string(), "b".to_string()], "b"));
    assert!(!contains_name(&vec!["a".to_string(), "b".to_string()], "c"));
}

#[test]
fn the_graph_numbers_nodes_by_depth() {
    let mut b = Builder::from_existing_df(get_df());
    for _ in 0..12 {
        b = b.cache();
    }
    let mut s = String::new();
    b.build().dot(&mut s, 0, "");
    assert!(s.starts_with("graph  polars_query {\n\"CACHE [0]\" -- \"CACHE [1]\"\n"));
    assert!(s.contains("\"CACHE [9]\" -- \"CACHE [10]\"\n"));
    assert!(s.ends_with("\"CACHE [11]\" -- \"TABLE\nπ */5;\nσ -\n[12]\"\n"));
    // a plan drawn below another keeps counting from the number it is given
    let mut s = String::new();
    Builder::from_existing_df(get_df()).slice(0, 1).build().dot(&mut s, 41, "above");
    assert_eq!(
        s,
        "\"above\" -- \"SLICE offset: 0; len: 1 [41]\"\n\"SLICE offset: 0; len: 1 [41]\" -- \"TABLE\nπ */5;\nσ -\n[42]\"\n"
    );
}
