use polars_join::datatypes::{AnyValue, DataType, PolarsError};
use polars_join::frame::DataFrame;
use polars_join::hash_join::{n_join_threads, cap_threads, JoinType, ZipOuterJoinColumn};
use polars_join::series::Series;

fn ints(name: &str, values: &[i32]) -> Series {
    Series::new(name, DataType::Int32, values.iter().map(|v| AnyValue::Int32(*v)).collect()).unwrap()
}

fn floats(name: &str, values: &[f64]) -> Series {
    Series::new(name, DataType::Float64, values.iter().map(|v| AnyValue::Float64(v.to_bits())).collect()).unwrap()
}

fn opt_floats(name: &str, values: &[Option<f64>]) -> Series {
    let cells = values
        .iter()
        .map(|v| match v {
            Some(x) => AnyValue::Float64(x.to_bits()),
            None => AnyValue::Null,
        })
        .collect();
    Series::new(name, DataType::Float64, cells).unwrap()
}

fn texts(name: &str, values: &[&str]) -> Series {
    Series::new(name, DataType::Utf8, values.iter().map(|v| AnyValue::Utf8(v.to_string())).collect()).unwrap()
}

fn categories(name: &str, values: &[&str], cache: &mut Vec<String>) -> Series {
    let cells = values
        .iter()
        .map(|v| {
            let code = match cache.iter().position(|c| c == v) {
                Some(i) => i,
                None => {
                    cache.push(v.to_string());
                    cache.len() - 1
                }
            };
            AnyValue::Categorical(code as u32)
        })
        .collect();
    Series::new(name, DataType::Categorical, cells).unwrap()
}

fn int_cells(s: &Series) -> Vec<Option<i32>> {
    (0..s.len())
        .map(|i| match s.get(i) {
            AnyValue::Int32(v) => Some(*v),
            AnyValue::Null => None,
            other => panic!("not an int cell: {:?}", other),
        })
        .collect()
}

fn float_cells(s: &Series) -> Vec<Option<f64>> {
    (0..s.len())
        .map(|i| match s.get(i) {
            AnyValue::Float64(v) => Some(f64::from_bits(*v)),
            AnyValue::Null => None,
            other => panic!("not a float cell: {:?}", other),
        })
        .collect()
}

fn text_cells(s: &Series) -> Vec<Option<String>> {
    (0..s.len())
        .map(|i| match s.get(i) {
            AnyValue::Utf8(v) => Some(v.clone()),
            AnyValue::Null => None,
            other => panic!("not a text cell: {:?}", other),
        })
        .collect()
}

fn float_sum(s: &Series) -> f64 {
    float_cells(s).iter().flatten().sum()
}

fn names(df: &DataFrame) -> Vec<String> {
    df.get_columns().iter().map(|s| s.name().to_string()).collect()
}

fn create_frames() -> (DataFrame, DataFrame) {
    let s0 = ints("days", &[0, 1, 2]);
    let s1 = floats("temp", &[22.1, 19.9, 7.]);
    let s2 = floats("rain", &[0.2, 0.1, 0.3]);
    let temp = DataFrame::new(vec![s0, s1, s2]).unwrap();

    let s0 = ints("days", &[1, 2, 3, 1]);
    let s1 = floats("rain", &[0.1, 0.2, 0.3, 0.4]);
    let rain = DataFrame::new(vec![s0, s1]).unwrap();
    (temp, rain)
}

#[test]
fn test_inner_join() {
    let (temp, rain) = create_frames();

    for i in 1..8 {
        let joined = temp.inner_join(&rain, "days", "days", Some(i)).unwrap();

        let join_col_days = ints("days", &[1, 2, 1]);
        let join_col_temp = floats("temp", &[19.9, 7., 19.9]);
        let join_col_rain = floats("rain", &[0.1, 0.3, 0.1]);
        let join_col_rain_right = floats("rain_right", [0.1, 0.2, 0.4].as_ref());
        let true_df = DataFrame::new(vec![
            join_col_days,
            join_col_temp,
            join_col_rain,
            join_col_rain_right,
        ])
        .unwrap();

        println!("{:?}", joined);
        assert!(joined.frame_equal(&true_df));
        assert_eq!(names(&joined), vec!["days", "temp", "rain", "rain_right"]);
    }
}

#[test]
fn test_left_join() {
    for i in 1..8 {
        let s0 = ints("days", &[0, 1, 2, 3, 4]);
        let s1 = floats("temp", &[22.1, 19.9, 7., 2., 3.]);
        let temp = DataFrame::new(vec![s0, s1]).unwrap();

        let s0 = ints("days", &[1, 2]);
        let s1 = floats("rain", &[0.1, 0.2]);
        let rain = DataFrame::new(vec![s0, s1]).unwrap();
        let joined = temp.left_join(&rain, "days", "days", Some(i)).unwrap();
        println!("{:?}", &joined);
        assert_eq!((float_sum(joined.column("rain").unwrap()) * 10.).round(), 3.);
        assert_eq!(joined.column("rain").unwrap().null_count(), 3);
        assert_eq!(joined.height(), 5);

        // test join on utf8
        let s0 = texts("days", &["mo", "tue", "wed", "thu", "fri"]);
        let s1 = floats("temp", &[22.1, 19.9, 7., 2., 3.]);
        let temp = DataFrame::new(vec![s0, s1]).unwrap();

        let s0 = texts("days", &["tue", "wed"]);
        let s1 = floats("rain", &[0.1, 0.2]);
        let rain = DataFrame::new(vec![s0, s1]).unwrap();
        let joined = temp.left_join(&rain, "days", "days", Some(i)).unwrap();
        println!("{:?}", &joined);
        assert_eq!((float_sum(joined.column("rain").unwrap()) * 10.).round(), 3.);
        assert_eq!(joined.column("rain").unwrap().null_count(), 3);
    }
}

#[test]
fn test_outer_join() {
    let (temp, rain) = create_frames();
    let joined = temp.outer_join(&rain, "days", "days", None).unwrap();
    println!("{:?}", &joined);
    assert_eq!(joined.height(), 5);
    let days = int_cells(joined.column("days").unwrap());
    assert_eq!(days.iter().flatten().sum::<i32>(), 7);
    assert_eq!(joined.column("days").unwrap().null_count(), 0);
}

#[test]
fn test_join_with_nulls() {
    let dts = &[20, 21, 22, 23, 24, 25, 27, 28];
    let vals = &[1.2, 2.4, 4.67, 5.8, 4.4, 3.6, 7.6, 6.5];
    let df = DataFrame::new(vec![ints("date", dts), floats("val", vals)]).unwrap();

    let vals2 = &[Some(1.1), None, Some(3.3), None, None];
    let df2 = DataFrame::new(vec![ints("date", &dts[3..]), opt_floats("val2", vals2)]).unwrap();

    let joined = df.left_join(&df2, "date", "date", None).unwrap();
    assert_eq!(
        float_cells(joined.column("val2").unwrap())[joined.height() - 1],
        None
    );
}

fn get_dfs() -> (DataFrame, DataFrame) {
    let df_a = DataFrame::new(vec![
        ints("a", &[1, 2, 1, 1]),
        texts("b", &["a", "b", "c", "c"]),
        ints("c", &[0, 1, 2, 3]),
    ])
    .unwrap();

    let df_b = DataFrame::new(vec![
        ints("foo", &[1, 1, 1]),
        texts("bar", &["a", "c", "c"]),
        texts("ham", &["let", "var", "const"]),
    ])
    .unwrap();
    (df_a, df_b)
}

fn with_column(df: DataFrame, s: Series) -> DataFrame {
    df.hstack(vec![s]).unwrap()
}

#[test]
fn test_join_multiple_columns() {
    let (df_a, df_b) = get_dfs();

    // First do a hack with concatenated string dummy column
    let s = texts("dummy", &["1a", "2b", "1c", "1c"]);
    let df_a = with_column(df_a, s);
    let s = texts("dummy", &["1a", "1c", "1c"]);
    let df_b = with_column(df_b, s);

    let joined = df_a.left_join(&df_b, "dummy", "dummy", None).unwrap();
    let ham_col = joined.column("ham").unwrap();

    let correct_ham = vec![
        Some("let".to_string()),
        None,
        Some("var".to_string()),
        Some("const".to_string()),
        Some("var".to_string()),
        Some("const".to_string()),
    ];

    assert_eq!(text_cells(ham_col), correct_ham);

    // now check the join with multiple columns
    let joined = df_a
        .join(&df_b, &vec!["a", "b"], &vec!["foo", "bar"], JoinType::Left, None)
        .unwrap();
    let ca = joined.column("ham").unwrap();
    assert_eq!(text_cells(ca), correct_ham);
    let joined_inner_hack = df_a.inner_join(&df_b, "dummy", "dummy", None).unwrap();
    let joined_inner = df_a
        .join(&df_b, &vec!["a", "b"], &vec!["foo", "bar"], JoinType::Inner, None)
        .unwrap();
    assert!(joined_inner_hack
        .column("ham")
        .unwrap()
        .series_equal_missing(joined_inner.column("ham").unwrap()));

    let joined_outer_hack = df_a.outer_join(&df_b, "dummy", "dummy", None).unwrap();
    let joined_outer = df_a
        .join(&df_b, &vec!["a", "b"], &vec!["foo", "bar"], JoinType::Outer, None)
        .unwrap();
    assert!(joined_outer_hack
        .column("ham")
        .unwrap()
        .series_equal_missing(joined_outer.column("ham").unwrap()));
}

#[test]
fn test_join_categorical() {
    let mut cache: Vec<String> = Vec::new();
    let df_a = DataFrame::new(vec![
        ints("a", &[1, 2, 1, 1]),
        categories("b", &["a", "b", "c", "c"], &mut cache),
        ints("c", &[0, 1, 2, 3]),
    ])
    .unwrap();
    let df_b = DataFrame::new(vec![
        ints("foo", &[1, 1, 1]),
        categories("bar", &["a", "c", "c"], &mut cache),
        texts("ham", &["let", "var", "const"]),
    ])
    .unwrap();

    let out = df_a.join(&df_b, &vec!["b"], &vec!["bar"], JoinType::Left, None).unwrap();
    assert_eq!((out.height(), out.width()), (6, 5));
    let correct_ham = vec![
        Some("let".to_string()),
        None,
        Some("var".to_string()),
        Some("const".to_string()),
        Some("var".to_string()),
        Some("const".to_string()),
    ];
    let ham_col = out.column("ham").unwrap();
    assert_eq!(text_cells(ham_col), correct_ham);
}

#[test]
fn empty_df_join() {
    let empty: Vec<&str> = vec![];
    let left = DataFrame::new(vec![texts("key", &empty), texts("lval", &empty)]).unwrap();

    let right = DataFrame::new(vec![texts("key", &["foo"]), ints("rval", &[4])]).unwrap();

    let res = left.inner_join(&right, "key", "key", None);

    assert!(res.is_ok());
    assert_eq!(res.unwrap().height(), 0);
    right.left_join(&left, "key", "key", None).unwrap();
    right.inner_join(&left, "key", "key", None).unwrap();
    right.outer_join(&left, "key", "key", None).unwrap();
}

#[test]
fn empty_left_side_yields_only_right_rows_in_outer_join() {
    let empty: Vec<&str> = vec![];
    let left = DataFrame::new(vec![texts("key", &empty), texts("lval", &empty)]).unwrap();
    let right = DataFrame::new(vec![texts("key", &["foo"]), ints("rval", &[4])]).unwrap();

    assert_eq!(left.inner_join(&right, "key", "key", None).unwrap().height(), 0);
    assert_eq!(left.left_join(&right, "key", "key", None).unwrap().height(), 0);
    let outer = left.outer_join(&right, "key", "key", None).unwrap();
    assert_eq!(outer.height(), 1);
    assert_eq!(names(&outer), vec!["key", "lval", "rval"]);
    assert_eq!(text_cells(outer.column("lval").unwrap()), vec![None]);
    assert_eq!(text_cells(outer.column("key").unwrap()), vec![Some("foo".to_string())]);
    assert_eq!(int_cells(outer.column("rval").unwrap()), vec![Some(4)]);
}

#[test]
fn inner_join_rows_come_in_probe_order() {
    let (temp, rain) = create_frames();
    let joined = temp.inner_join(&rain, "days", "days", Some(3)).unwrap();
    assert_eq!(int_cells(joined.column("days").unwrap()), vec![Some(1), Some(2), Some(1)]);
    assert_eq!(float_cells(joined.column("temp").unwrap()), vec![Some(19.9), Some(7.0), Some(19.9)]);
    assert_eq!(float_cells(joined.column("rain").unwrap()), vec![Some(0.1), Some(0.3), Some(0.1)]);
    assert_eq!(float_cells(joined.column("rain_right").unwrap()), vec![Some(0.1), Some(0.2), Some(0.4)]);
}

#[test]
fn outer_join_layout() {
    let (temp, rain) = create_frames();
    let joined = temp.outer_join(&rain, "days", "days", None).unwrap();
    assert_eq!(names(&joined), vec!["days", "temp", "rain", "rain_right"]);
    assert_eq!(
        int_cells(joined.column("days").unwrap()),
        vec![Some(1), Some(2), Some(3), Some(1), Some(0)]
    );
    assert_eq!(
        float_cells(joined.column("temp").unwrap()),
        vec![Some(19.9), Some(7.0), None, None, Some(22.1)]
    );
    assert_eq!(
        float_cells(joined.column("rain_right").unwrap()),
        vec![Some(0.1), Some(0.2), Some(0.3), Some(0.4), None]
    );
}

#[test]
fn null_keys_match_each_other() {
    let left = DataFrame::new(vec![
        opt_floats("k", &[None, Some(1.0), None]),
        ints("l", &[10, 11, 12]),
    ])
    .unwrap();
    let right = DataFrame::new(vec![
        opt_floats("k", &[None, None, Some(2.0), None]),
        ints("r", &[20, 21, 22, 23]),
    ])
    .unwrap();
    let joined = left.inner_join(&right, "k", "k", Some(2)).unwrap();
    // two null keys on the left, three on the right
    assert_eq!(joined.height(), 6);
    assert_eq!(joined.column("k").unwrap().null_count(), 6);
    let left_join = left.left_join(&right, "k", "k", Some(2)).unwrap();
    assert_eq!(left_join.height(), 7);
    assert_eq!(
        int_cells(left_join.column("r").unwrap()),
        vec![Some(20), Some(21), Some(23), None, Some(20), Some(21), Some(23)]
    );
}

#[test]
fn float_keys_are_compared_by_bits() {
    let nan_a = f64::from_bits(0x7ff8_0000_0000_0001);
    let nan_b = f64::from_bits(0x7ff8_0000_0000_0002);
    let left = DataFrame::new(vec![floats("k", &[nan_a, 0.0, -0.0])]).unwrap();
    let right = DataFrame::new(vec![floats("k", &[nan_a, nan_b, 0.0]), ints("r", &[1, 2, 3])]).unwrap();
    let joined = left.left_join(&right, "k", "k", Some(1)).unwrap();
    assert_eq!(int_cells(joined.column("r").unwrap()), vec![Some(1), Some(3), None]);
}

#[test]
fn self_join_on_unique_key_gives_the_table_back() {
    let df = DataFrame::new(vec![ints("id", &[7, 3, 9, 1]), texts("what", &["a", "b", "c", "d"])]).unwrap();
    let joined = df.join(&df, &vec!["id"], &vec!["id"], JoinType::Inner, Some(4)).unwrap();
    assert_eq!(joined.height(), 4);
    assert_eq!(names(&joined), vec!["id", "what", "what_right"]);
    assert!(joined.column("id").unwrap().series_equal_missing(df.column("id").unwrap()));
    assert!(joined.column("what").unwrap().series_equal_missing(df.column("what").unwrap()));
    assert!(joined.column("what_right").unwrap().series_equal_missing(df.column("what").unwrap()));
}

#[test]
fn join_errors() {
    let (temp, rain) = create_frames();
    match temp.inner_join(&rain, "nope", "days", None) {
        Err(PolarsError::NotFound(name)) => assert_eq!(name, "nope"),
        other => panic!("{:?}", other),
    }
    match temp.inner_join(&rain, "days", "gone", None) {
        Err(PolarsError::NotFound(name)) => assert_eq!(name, "gone"),
        other => panic!("{:?}", other),
    }
    match temp.join(&rain, &vec!["days", "temp"], &vec!["days"], JoinType::Inner, None) {
        Err(PolarsError::Arity(2, 1)) => {}
        other => panic!("{:?}", other),
    }
    match temp.join(&rain, &vec![], &vec![], JoinType::Left, None) {
        Err(PolarsError::Arity(1, 0)) => {}
        other => panic!("{:?}", other),
    }
    match temp.inner_join(&rain, "days", "rain", None) {
        Err(PolarsError::TypeMismatch(DataType::Int32, DataType::Float64)) => {}
        other => panic!("{:?}", other),
    }
    let lists = DataFrame::new(vec![Series::new("days", DataType::List, vec![AnyValue::Null]).unwrap()]).unwrap();
    match lists.inner_join(&rain, "days", "days", None) {
        Err(PolarsError::Unsupported(op, DataType::List)) => assert_eq!(op, "join"),
        other => panic!("{:?}", other),
    }
    // the suffixed name is taken on the left
    let left = DataFrame::new(vec![ints("k", &[1]), ints("v", &[1]), ints("v_right", &[1])]).unwrap();
    let right = DataFrame::new(vec![ints("k", &[1]), ints("v", &[2])]).unwrap();
    match left.inner_join(&right, "k", "k", None) {
        Err(PolarsError::Invariant(name)) => assert_eq!(name, "v_right"),
        other => panic!("{:?}", other),
    }
}

#[test]
fn constructors_refuse_bad_input() {
    match Series::new("a", DataType::Int32, vec![AnyValue::Int32(1), AnyValue::Utf8("x".to_string())]) {
        Err(PolarsError::TypeMismatch(DataType::Int32, DataType::Utf8)) => {}
        other => panic!("{:?}", other),
    }
    match DataFrame::new(vec![ints("a", &[1, 2]), ints("b", &[1])]) {
        Err(PolarsError::Invariant(name)) => assert_eq!(name, "b"),
        other => panic!("{:?}", other),
    }
}

#[test]
fn thread_count_is_capped() {
    assert_eq!(cap_threads(8, Some(3)), 3);
    assert_eq!(cap_threads(8, Some(30)), 8);
    assert_eq!(cap_threads(8, None), 8);
    assert!(n_join_threads(None) >= 1);
    assert_eq!(n_join_threads(Some(1)), 1);
}

#[test]
fn zip_takes_left_then_right() {
    let left = ints("days", &[0, 1, 2]);
    let right = ints("days", &[1, 2, 3, 1]);
    let pairs = vec![(Some(1), Some(0)), (None, Some(2)), (Some(0), None), (None, None)];
    let zipped = left.zip_outer_join_column(&right, &pairs);
    assert_eq!(zipped.name(), "days");
    assert_eq!(int_cells(&zipped), vec![Some(1), Some(3), Some(0), None]);
}

#[test]
fn outer_join_keeps_the_key_columns_in_their_places() {
    let left = DataFrame::new(vec![
        floats("x", &[1.0, 2.0]),
        ints("k", &[1, 2]),
        texts("t", &["a", "b"]),
        floats("y", &[3.0, 4.0]),
    ])
    .unwrap();
    let right = DataFrame::new(vec![
        texts("s", &["b", "c", "a"]),
        floats("y", &[5.0, 6.0, 7.0]),
        ints("j", &[2, 3, 1]),
    ])
    .unwrap();
    let joined = left.join(&right, &vec!["k", "t"], &vec!["j", "s"], JoinType::Outer, None).unwrap();
    assert_eq!(names(&joined), vec!["x", "k", "t", "y", "y_right"]);
    assert_eq!(int_cells(joined.column("k").unwrap()), vec![Some(2), Some(3), Some(1)]);
    assert_eq!(
        text_cells(joined.column("t").unwrap()),
        vec![Some("b".to_string()), Some("c".to_string()), Some("a".to_string())]
    );
    assert_eq!(float_cells(joined.column("x").unwrap()), vec![Some(2.0), None, Some(1.0)]);
    assert_eq!(float_cells(joined.column("y_right").unwrap()), vec![Some(5.0), Some(6.0), Some(7.0)]);
}
