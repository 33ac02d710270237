use std::sync::Arc;

use polars_join::datatypes::{AnyValue, DataType, Field, PolarsError, Schema};
use polars_join::expr::{col, Expr};
use polars_join::frame::DataFrame;
use polars_join::hash_join::{remove_selected, split_inner, split_left, split_outer};
use polars_join::series::Series;

fn ints(name: &str, values: &[Option<i64>]) -> Series {
    let cells = values
        .iter()
        .map(|v| match v {
            Some(x) => AnyValue::Int64(*x),
            None => AnyValue::Null,
        })
        .collect();
    Series::new(name, DataType::Int64, cells).unwrap()
}

fn cells(s: &Series) -> Vec<Option<i64>> {
    (0..s.len())
        .map(|i| match s.get(i) {
            AnyValue::Int64(v) => Some(*v),
            AnyValue::Null => None,
            other => panic!("{:?}", other),
        })
        .collect()
}

fn names(df: &DataFrame) -> Vec<String> {
    df.get_columns().iter().map(|s| s.name().to_string()).collect()
}

fn frame() -> DataFrame {
    DataFrame::new(vec![
        ints("a", &[Some(1), None, Some(3)]),
        ints("b", &[Some(10), Some(20), Some(30)]),
        ints("c", &[None, None, None]),
    ])
    .unwrap()
}

#[test]
fn series_know_their_cells() {
    let mut s = ints("a", &[Some(1), None, Some(3), None]);
    assert_eq!(s.len(), 4);
    assert_eq!(s.null_count(), 2);
    assert_eq!(s.dtype(), DataType::Int64);
    assert!(s.get(1).is_null());
    assert!(!s.get(0).is_null());
    s.rename("b");
    assert_eq!(s.name(), "b");
    assert_eq!(s.field().name(), "b");
    assert_eq!(s.field().data_type(), DataType::Int64);
    let copy = s.duplicate();
    assert!(copy.series_equal_missing(&s));
    assert!(!copy.series_equal_missing(&ints("b", &[Some(1), None, Some(3)])));
    assert!(!copy.series_equal_missing(&ints("b", &[Some(1), None, Some(4), None])));
}

#[test]
fn cells_fit_their_own_type_only() {
    assert!(AnyValue::Null.fits(DataType::Utf8));
    assert!(AnyValue::Float32(1.0f32.to_bits()).fits(DataType::Float32));
    assert!(!AnyValue::Float32(1.0f32.to_bits()).fits(DataType::UInt32));
    assert!(!AnyValue::Utf8("x".into()).fits(DataType::Categorical));
    assert_eq!(AnyValue::Null.dtype(), DataType::Null);
    assert!(AnyValue::Utf8("x".into()).same(&AnyValue::Utf8("x".into())));
    assert!(!AnyValue::Int8(1).same(&AnyValue::Int16(1)));
    assert!(AnyValue::Null.same(&AnyValue::Null));
    assert!(AnyValue::Utf8("x".into()).duplicate().same(&AnyValue::Utf8("x".into())));
}

#[test]
fn gathering_puts_nulls_for_absent_rows() {
    let s = ints("a", &[Some(1), None, Some(3)]);
    let taken = s.take_opt(&vec![Some(2), None, Some(0), Some(0), Some(1)]);
    assert_eq!(taken.name(), "a");
    assert_eq!(cells(&taken), vec![Some(3), None, Some(1), Some(1), None]);
    let df = frame().take_opt(&vec![Some(1), None]);
    assert_eq!((df.height(), df.width()), (2, 3));
    assert_eq!(cells(df.column("b").unwrap()), vec![Some(20), None]);
    let df = frame().create_left_df(&vec![]);
    assert_eq!((df.height(), df.width()), (0, 3));
}

#[test]
fn tables_find_and_drop_columns_by_name() {
    let df = frame();
    assert_eq!(df.find_idx_by_name("b"), Some(1));
    assert_eq!(df.find_idx_by_name("z"), None);
    assert_eq!(names(&df.drop("b").unwrap()), vec!["a", "c"]);
    match df.drop("z") {
        Err(PolarsError::NotFound(name)) => assert_eq!(name, "z"),
        other => panic!("{:?}", other),
    }
    match df.column("z") {
        Err(PolarsError::NotFound(name)) => assert_eq!(name, "z"),
        other => panic!("{:?}", other),
    }
    let selected = df.select_series(&vec!["c", "a", "c"]).unwrap();
    assert_eq!(selected.iter().map(|s| s.name()).collect::<Vec<_>>(), vec!["c", "a", "c"]);
    match df.select_series(&vec!["a", "y", "z"]) {
        Err(PolarsError::NotFound(name)) => assert_eq!(name, "y"),
        other => panic!("{:?}", other.map(|_| ())),
    }
    // a name that is picked twice is dropped once
    assert_eq!(names(&remove_selected(&df, &selected)), vec!["b"]);
    assert_eq!(names(&df.duplicate()), vec!["a", "b", "c"]);
    let schema = df.schema();
    assert_eq!(schema.len(), 3);
    assert_eq!(schema.index_of("c").unwrap(), 2);
    assert!(schema.index_of("d").is_err());
    assert_eq!(schema.duplicate().fields().len(), 3);
}

#[test]
fn stacking_refuses_clashes() {
    let df = frame();
    let wide = df.duplicate().hstack(vec![ints("d", &[None, None, None])]).unwrap();
    assert_eq!(names(&wide), vec!["a", "b", "c", "d"]);
    match df.duplicate().hstack(vec![ints("d", &[None, None, None]), ints("d", &[None, None, None])]) {
        Err(PolarsError::Invariant(name)) => assert_eq!(name, "d"),
        other => panic!("{:?}", other),
    }
    match df.duplicate().hstack(vec![ints("d", &[None])]) {
        Err(PolarsError::Invariant(name)) => assert_eq!(name, "d"),
        other => panic!("{:?}", other),
    }
    let mut df = df;
    assert!(matches!(df.push_column(ints("a", &[None, None, None])), Err(PolarsError::Invariant(_))));
    assert_eq!(df.width(), 3);
    assert!(df.push_column(ints("e", &[None, None, None])).is_ok());
    assert_eq!(df.width(), 4);
    // a table without columns takes a column of any length
    let mut empty = DataFrame::new(vec![]).unwrap();
    assert_eq!((empty.height(), empty.width()), (0, 0));
    assert!(empty.push_column(ints("a", &[Some(1)])).is_ok());
    assert_eq!(empty.height(), 1);
    assert_eq!(empty.into_columns().len(), 1);
}

#[test]
fn finishing_a_join_renames_on_the_right() {
    let left = frame();
    let right = DataFrame::new(vec![ints("b", &[None, None, None]), ints("x", &[None, None, None])]).unwrap();
    let joined = left.finish_join(left.duplicate(), right).unwrap();
    assert_eq!(names(&joined), vec!["a", "b", "c", "b_right", "x"]);
    assert!(joined.frame_equal_missing(&joined.duplicate()));
    assert!(!joined.frame_equal_missing(&left));
    // a null cell is equal to none
    assert!(!joined.frame_equal(&joined.duplicate()));
    let whole = DataFrame::new(vec![ints("a", &[Some(1), Some(2)])]).unwrap();
    assert!(whole.frame_equal(&whole.duplicate()));
    assert!(ints("a", &[Some(1)]).series_equal(&ints("b", &[Some(1)])));
    assert!(!ints("a", &[None]).series_equal(&ints("a", &[None])));
}

#[test]
fn pairs_split_into_rows() {
    assert_eq!(split_inner(&vec![(1, 0), (2, 1)]), (vec![Some(1), Some(2)], vec![Some(0), Some(1)]));
    assert_eq!(split_left(&vec![(1, None), (2, Some(1))]), (vec![Some(1), Some(2)], vec![None, Some(1)]));
    assert_eq!(split_outer(&vec![(None, Some(4)), (Some(2), None)]), (vec![None, Some(2)], vec![Some(4), None]));
}

#[test]
fn joins_on_picked_columns() {
    let left = frame();
    let right = DataFrame::new(vec![ints("k", &[Some(3), None, None]), ints("v", &[Some(7), Some(8), Some(9)])]).unwrap();
    let joined = left
        .inner_join_from_series(&right, left.column("a").unwrap(), right.column("k").unwrap(), 2)
        .unwrap();
    assert_eq!(names(&joined), vec!["a", "b", "c", "v"]);
    assert_eq!(cells(joined.column("v").unwrap()), vec![Some(7), Some(8), Some(9)]);
    assert_eq!(cells(joined.column("b").unwrap()), vec![Some(30), Some(20), Some(20)]);
    let joined = left
        .left_join_from_series(&right, left.column("b").unwrap(), right.column("k").unwrap(), 2)
        .unwrap();
    assert_eq!(cells(joined.column("v").unwrap()), vec![None, None, None]);
    let joined = left
        .outer_join_from_series(&right, left.column("a").unwrap(), right.column("k").unwrap())
        .unwrap();
    assert_eq!(names(&joined), vec!["a", "b", "c", "v"]);
    assert_eq!(joined.height(), 4);
}

#[derive(Debug)]
struct Twice;

#[test]
fn copies_of_an_expression_share_the_users_function() {
    let function = Arc::new(Twice);
    let e: Expr<Twice> = Expr::Udf { input: Box::new(col("a")), function: function.clone(), output_type: None };
    let copy = e.duplicate();
    match (&e, &copy) {
        (Expr::Udf { function: f, .. }, Expr::Udf { function: g, .. }) => assert!(Arc::ptr_eq(f, g)),
        _ => panic!("not a function call"),
    }
    assert_eq!(Arc::strong_count(&function), 3);
    assert_eq!(copy.fmt_debug(), "APPLY(a)");
    assert!(!copy.has_wildcard());
    assert!(!copy.has_count());
    assert_eq!(copy.expr_to_root_column_name(), Some("a".to_string()));
    assert_eq!(copy.output_name(), Some("a".to_string()));
    assert_eq!(copy.expr_to_root_column_exprs(), vec![Some("a".to_string())]);
    let both: Expr<Twice> = col::<Twice>("x").and(Expr::Wildcard);
    assert_eq!(both.expr_to_root_column_exprs(), vec![Some("x".to_string()), None]);
    assert_eq!(both.expr_to_root_column_name(), None);
    let field = Field::new("a", DataType::Boolean);
    let schema = Schema::new(vec![field.duplicate()]);
    assert!(schema.field_with_name("a").is_ok());
}
