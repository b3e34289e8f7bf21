use stratum_core::data::dataframe::DataFrame;
use stratum_core::data::error::DataError;
use stratum_core::data::series::{Series, SeriesType};
use stratum_core::data::value::Value;

fn text(s: &str) -> Value {
    Value::String(s.to_string())
}

fn cells(df: &DataFrame, name: &str) -> Vec<Value> {
    df.column(name).unwrap().to_values().unwrap()
}

/// Names, ages and levels of three people.
fn staff() -> DataFrame {
    let names = Series::from_strings("name", vec!["Alice", "Bob", "Charlie"]);
    let ages = Series::from_ints("age", vec![30, 25, 35]);
    let levels = Series::from_ints("level", vec![3, 1, 2]);
    DataFrame::from_series(vec![names, ages, levels]).unwrap()
}

/// The same people with some values missing.
fn staff_with_nulls() -> DataFrame {
    let names = Series::from_values("name", &[text("Alice"), Value::Null, text("Charlie"), text("Dave")]).unwrap();
    let ages = Series::from_optional_ints("age", vec![Some(30), Some(25), None, Some(40)]);
    let levels = Series::from_optional_ints("level", vec![Some(3), Some(1), Some(2), None]);
    DataFrame::from_series(vec![names, ages, levels]).unwrap()
}

#[test]
fn test_distinct() {
    let names = Series::from_strings("name", vec!["Alice", "Bob", "Alice", "Charlie", "Bob"]);
    let ages = Series::from_ints("age", vec![30, 25, 30, 35, 25]);
    let df = DataFrame::from_series(vec![names, ages]).unwrap();

    let distinct = df.distinct().unwrap();
    assert_eq!(distinct.num_rows(), 3);
}

#[test]
fn test_distinct_by() {
    let names = Series::from_strings("name", vec!["Alice", "Bob", "Alice", "Charlie"]);
    let ages = Series::from_ints("age", vec![30, 25, 31, 35]);
    let df = DataFrame::from_series(vec![names, ages]).unwrap();

    let distinct = df.distinct_by(&["name"]).unwrap();
    assert_eq!(distinct.num_rows(), 3);

    let ages_col = distinct.column("age").unwrap();
    assert_eq!(ages_col.get(0).unwrap(), Value::Int(30));
}

#[test]
fn test_fillna_forward() {
    let ages = Series::from_optional_ints("age", vec![Some(10), None, None, Some(40), None]);
    let df = DataFrame::from_series(vec![ages]).unwrap();

    let filled = df.fillna_forward().unwrap();
    let age_col = filled.column("age").unwrap();

    assert_eq!(age_col.get(0).unwrap(), Value::Int(10));
    assert_eq!(age_col.get(1).unwrap(), Value::Int(10));
    assert_eq!(age_col.get(2).unwrap(), Value::Int(10));
    assert_eq!(age_col.get(3).unwrap(), Value::Int(40));
    assert_eq!(age_col.get(4).unwrap(), Value::Int(40));
}

#[test]
fn test_fillna_backward() {
    let ages = Series::from_optional_ints("age", vec![None, Some(20), None, None, Some(50)]);
    let df = DataFrame::from_series(vec![ages]).unwrap();

    let filled = df.fillna_backward().unwrap();
    let age_col = filled.column("age").unwrap();

    assert_eq!(age_col.get(0).unwrap(), Value::Int(20));
    assert_eq!(age_col.get(1).unwrap(), Value::Int(20));
    assert_eq!(age_col.get(2).unwrap(), Value::Int(50));
    assert_eq!(age_col.get(3).unwrap(), Value::Int(50));
    assert_eq!(age_col.get(4).unwrap(), Value::Int(50));
}

#[test]
fn test_melt() {
    let names = Series::from_strings("name", vec!["Alice", "Bob"]);
    let q1 = Series::from_ints("Q1", vec![100, 200]);
    let q2 = Series::from_ints("Q2", vec![150, 250]);
    let df = DataFrame::from_series(vec![names, q1, q2]).unwrap();

    let melted = df.melt(&["name"], &["Q1", "Q2"], None, None).unwrap();

    assert_eq!(melted.num_columns(), 3);
    assert_eq!(melted.num_rows(), 4);

    assert!(melted.columns().contains(&"variable".to_string()));
    assert!(melted.columns().contains(&"value".to_string()));
}

#[test]
fn test_unstack() {
    let index = Series::from_strings("person", vec!["Alice", "Alice", "Bob", "Bob"]);
    let variable = Series::from_strings("metric", vec!["age", "score", "age", "score"]);
    let values = Series::from_ints("value", vec![30, 85, 25, 92]);
    let df = DataFrame::from_series(vec![index, variable, values]).unwrap();

    let unstacked = df.unstack("person", "metric", "value").unwrap();

    assert_eq!(unstacked.num_columns(), 3);
    assert_eq!(unstacked.num_rows(), 2);

    assert!(unstacked.columns().contains(&"person".to_string()));
    assert!(unstacked.columns().contains(&"age".to_string()));
    assert!(unstacked.columns().contains(&"score".to_string()));
}

#[test]
fn test_pivot() {
    let product = Series::from_strings("product", vec!["A", "A", "B", "B"]);
    let quarter = Series::from_strings("quarter", vec!["Q1", "Q2", "Q1", "Q2"]);
    let sales = Series::from_ints("sales", vec![100, 150, 200, 250]);
    let df = DataFrame::from_series(vec![product, quarter, sales]).unwrap();

    let pivoted = df.pivot("product", "quarter", "sales").unwrap();

    assert_eq!(pivoted.num_columns(), 3);
    assert_eq!(pivoted.num_rows(), 2);

    assert!(pivoted.columns().contains(&"product".to_string()));
    assert!(pivoted.columns().contains(&"Q1".to_string()));
    assert!(pivoted.columns().contains(&"Q2".to_string()));
}

#[test]
fn test_explode_non_list() {
    let names = Series::from_strings("name", vec!["Alice", "Bob"]);
    let scores = Series::from_ints("score", vec![100, 200]);
    let df = DataFrame::from_series(vec![names, scores]).unwrap();

    let exploded = df.explode("score").unwrap();
    assert_eq!(exploded.num_rows(), 2);
    assert_eq!(exploded.num_columns(), 2);

    let score_col = exploded.column("score").unwrap();
    assert_eq!(score_col.get(0).unwrap(), Value::Int(100));
    assert_eq!(score_col.get(1).unwrap(), Value::Int(200));
}

#[test]
fn test_explode_with_nulls() {
    let names = Series::from_strings("name", vec!["Alice", "Bob"]);
    let scores = Series::from_optional_ints("score", vec![Some(100), None]);
    let df = DataFrame::from_series(vec![names, scores]).unwrap();

    let exploded = df.explode("score").unwrap();
    assert_eq!(exploded.num_rows(), 2);

    let score_col = exploded.column("score").unwrap();
    assert_eq!(score_col.get(0).unwrap(), Value::Int(100));
    assert_eq!(score_col.get(1).unwrap(), Value::Null);
}

#[test]
fn test_merge_inner() {
    let id1 = Series::from_ints("id", vec![1, 2, 3]);
    let name1 = Series::from_strings("name", vec!["Alice", "Bob", "Charlie"]);
    let left = DataFrame::from_series(vec![id1, name1]).unwrap();

    let id2 = Series::from_ints("id", vec![2, 3, 4]);
    let score2 = Series::from_ints("score", vec![85, 90, 95]);
    let right = DataFrame::from_series(vec![id2, score2]).unwrap();

    let result = left.merge(&right, &["id"], "inner", ("_x", "_y")).unwrap();

    assert_eq!(result.num_rows(), 2);
    assert!(result.columns().contains(&"id".to_string()));
    assert!(result.columns().contains(&"name".to_string()));
    assert!(result.columns().contains(&"score".to_string()));
}

#[test]
fn test_merge_left() {
    let id1 = Series::from_ints("id", vec![1, 2, 3]);
    let name1 = Series::from_strings("name", vec!["Alice", "Bob", "Charlie"]);
    let left = DataFrame::from_series(vec![id1, name1]).unwrap();

    let id2 = Series::from_ints("id", vec![2, 3, 4]);
    let score2 = Series::from_ints("score", vec![85, 90, 95]);
    let right = DataFrame::from_series(vec![id2, score2]).unwrap();

    let result = left.merge(&right, &["id"], "left", ("_x", "_y")).unwrap();

    assert_eq!(result.num_rows(), 3);
}

#[test]
fn test_merge_with_suffixes() {
    let id = Series::from_ints("id", vec![1, 2]);
    let value = Series::from_ints("value", vec![10, 20]);
    let left = DataFrame::from_series(vec![id.clone(), value]).unwrap();

    let id2 = Series::from_ints("id", vec![1, 2]);
    let value2 = Series::from_ints("value", vec![100, 200]);
    let right = DataFrame::from_series(vec![id2, value2]).unwrap();

    let result = left.merge(&right, &["id"], "inner", ("_left", "_right")).unwrap();

    assert!(result.columns().contains(&"value_left".to_string()));
    assert!(result.columns().contains(&"value_right".to_string()));
}

#[test]
fn test_cross_join() {
    let letters = Series::from_strings("letter", vec!["A", "B"]);
    let left = DataFrame::from_series(vec![letters]).unwrap();

    let numbers = Series::from_ints("number", vec![1, 2, 3]);
    let right = DataFrame::from_series(vec![numbers]).unwrap();

    let result = left.cross_join(&right).unwrap();

    assert_eq!(result.num_rows(), 6);
    assert_eq!(result.num_columns(), 2);

    let letter_col = result.column("letter").unwrap();
    let number_col = result.column("number").unwrap();

    assert_eq!(letter_col.get(0).unwrap(), text("A"));
    assert_eq!(number_col.get(0).unwrap(), Value::Int(1));
}

#[test]
fn frame_from_series_and_columns() {
    let df = staff();
    assert_eq!(df.num_columns(), 3);
    assert_eq!(df.num_rows(), 3);
    assert_eq!(df.columns(), vec!["name", "age", "level"]);
    assert!(!df.is_empty());
    assert_eq!(df.column("age").unwrap().len(), 3);
    assert!(matches!(df.column("nonexistent"), Err(DataError::ColumnNotFound(c)) if c == "nonexistent"));
    assert_eq!(df.column_by_index(2).unwrap().name(), "level");
    assert!(matches!(df.column_by_index(3), Err(DataError::InvalidColumnIndex(3))));

    let short = Series::from_ints("short", vec![1]);
    let err = DataFrame::from_series(vec![Series::from_ints("a", vec![1, 2]), short]).unwrap_err();
    assert_eq!(err.to_string(), "schema mismatch: column 'short' has 1 rows, expected 2");

    let empty = DataFrame::from_series(vec![]).unwrap();
    assert_eq!(empty.num_rows(), 0);
    assert!(empty.is_empty());
}

#[test]
fn frame_head_tail_take() {
    let df = staff();
    let head = df.head(2).unwrap();
    assert_eq!(head.num_rows(), 2);
    assert_eq!(cells(&head, "age"), vec![Value::Int(30), Value::Int(25)]);
    let tail = df.tail(2).unwrap();
    assert_eq!(tail.num_rows(), 2);
    assert_eq!(cells(&tail, "age"), vec![Value::Int(25), Value::Int(35)]);
    assert_eq!(df.take_rows(2).unwrap().num_rows(), 2);
    assert_eq!(df.head(10).unwrap().num_rows(), 3);
    assert_eq!(df.tail(10).unwrap().num_rows(), 3);
}

#[test]
fn frame_select_drop_rename() {
    let df = staff();
    let selected = df.select(&["name", "level"]).unwrap();
    assert_eq!(selected.columns(), vec!["name", "level"]);
    assert!(matches!(df.select(&["name", "salary"]), Err(DataError::ColumnNotFound(c)) if c == "salary"));

    let dropped = df.drop(&["age"]).unwrap();
    assert_eq!(dropped.columns(), vec!["name", "level"]);
    assert!(matches!(df.drop(&["name", "age", "level"]), Err(DataError::EmptyData)));

    let renamed = df.rename_column("age", "years").unwrap();
    assert_eq!(renamed.columns(), vec!["name", "years", "level"]);
    assert_eq!(cells(&renamed, "years"), vec![Value::Int(30), Value::Int(25), Value::Int(35)]);
}

#[test]
fn frame_filter_by_indices() {
    let df = staff();
    let picked = df.filter_by_indices(&[2, 0]).unwrap();
    assert_eq!(cells(&picked, "name"), vec![text("Charlie"), text("Alice")]);
    assert!(df.filter_by_indices(&[0, 3]).is_err());
}

#[test]
fn frame_dropna_and_fillna() {
    let df = staff_with_nulls();
    let dropped = df.dropna().unwrap();
    assert_eq!(dropped.num_rows(), 1);
    assert_eq!(cells(&dropped, "name"), vec![text("Alice")]);

    let by_name = df.dropna_columns(&["name".to_string()]).unwrap();
    assert_eq!(by_name.num_rows(), 3);

    let filled = df.fillna(&Value::Int(0)).unwrap();
    assert_eq!(filled.num_rows(), 4);
    assert_eq!(filled.column("age").unwrap().get(2).unwrap(), Value::Int(0));
    // The text column keeps its missing value: an integer does not fit it.
    assert_eq!(filled.column("name").unwrap().get(1).unwrap(), Value::Null);
}

#[test]
fn frame_fillna_map() {
    let df = staff_with_nulls();
    let fills = vec![("age".to_string(), Value::Int(99)), ("name".to_string(), text("Unknown"))];
    let filled = df.fillna_map(&fills).unwrap();
    assert_eq!(filled.column("name").unwrap().get(1).unwrap(), text("Unknown"));
    assert_eq!(filled.column("age").unwrap().get(2).unwrap(), Value::Int(99));
    // No fill value is given for the level column.
    assert_eq!(filled.column("level").unwrap().get(3).unwrap(), Value::Null);
}

#[test]
fn frame_transpose() {
    let df = staff();
    let t = df.transpose().unwrap();
    assert_eq!(t.num_columns(), 4);
    assert_eq!(t.num_rows(), 3);
    assert_eq!(cells(&t, "column"), vec![text("name"), text("age"), text("level")]);
    assert_eq!(cells(&t, "row_0"), vec![text("Alice"), text("30"), text("3")]);
    assert_eq!(cells(&t, "row_2"), vec![text("Charlie"), text("35"), text("2")]);

    let no_rows = df.head(0).unwrap().transpose().unwrap();
    assert_eq!(no_rows.columns(), vec!["name", "age", "level"]);
}

#[test]
fn frame_stack() {
    let df = staff();
    let stacked = df.stack(&["age", "level"]).unwrap();
    assert_eq!(stacked.columns(), vec!["row", "column", "value"]);
    assert_eq!(stacked.num_rows(), 6);
    assert_eq!(cells(&stacked, "row"), vec![Value::Int(0), Value::Int(1), Value::Int(2), Value::Int(0), Value::Int(1), Value::Int(2)]);
    assert_eq!(stacked.column("column").unwrap().get(3).unwrap(), text("level"));
    assert_eq!(stacked.column("value").unwrap().get(0).unwrap(), text("30"));
    assert_eq!(stacked.column("value").unwrap().get(5).unwrap(), text("2"));

    let nulls = staff_with_nulls().stack(&[]).unwrap();
    assert_eq!(nulls.num_rows(), 12);
    assert_eq!(nulls.column("value").unwrap().get(1).unwrap(), text("null"));

    assert!(matches!(df.stack(&["age", "salary"]), Err(DataError::ColumnNotFound(c)) if c == "salary"));
    let none = DataFrame::from_series(vec![]).unwrap();
    assert!(matches!(none.stack(&[]), Err(DataError::EmptyData)));
}

#[test]
fn frame_melt_defaults_and_errors() {
    let df = staff();
    let melted = df.melt(&["name"], &[], Some("field"), Some("amount")).unwrap();
    assert_eq!(melted.columns(), vec!["name", "field", "amount"]);
    assert_eq!(melted.num_rows(), 6);
    assert_eq!(cells(&melted, "name"), vec![text("Alice"), text("Bob"), text("Charlie"), text("Alice"), text("Bob"), text("Charlie")]);
    assert_eq!(cells(&melted, "field")[3], text("level"));
    assert_eq!(cells(&melted, "amount"), vec![Value::Int(30), Value::Int(25), Value::Int(35), Value::Int(3), Value::Int(1), Value::Int(2)]);

    assert!(matches!(df.melt(&["name", "age", "level"], &[], None, None), Err(DataError::EmptyData)));
    assert!(matches!(df.melt(&["nick"], &["age"], None, None), Err(DataError::ColumnNotFound(c)) if c == "nick"));
    // Mixing text and integer columns in one value column is a type error.
    let mixed = df.melt(&[], &["age", "name"], None, None);
    assert!(matches!(mixed, Err(DataError::TypeMismatch { .. })));
}

#[test]
fn frame_explode_missing_column() {
    let df = staff();
    assert!(matches!(df.explode("tags"), Err(DataError::ColumnNotFound(c)) if c == "tags"));
    let moved = df.explode("name").unwrap();
    assert_eq!(moved.columns(), vec!["age", "level", "name"]);
}

#[test]
fn frame_add_and_with_column() {
    let df = staff();
    let added = df.add_column(Series::from_ints("bonus", vec![100, 200, 300])).unwrap();
    assert_eq!(added.columns(), vec!["name", "age", "level", "bonus"]);

    let flags = df.add_column_from_values("active", &[Value::Bool(true), Value::Bool(false), Value::Bool(true)]).unwrap();
    assert_eq!(flags.column("active").unwrap().data_type(), SeriesType::Boolean);

    let short = df.add_column_from_values("bad", &[Value::Int(1), Value::Int(2)]).unwrap_err();
    assert_eq!(short.to_string(), "schema mismatch: cannot add column 'bad' with 2 rows to DataFrame with 3 rows");
    let dup = df.add_column_from_values("name", &[Value::Int(1), Value::Int(2), Value::Int(3)]).unwrap_err();
    assert_eq!(dup.to_string(), "schema mismatch: column 'name' already exists in DataFrame");
    assert!(matches!(
        df.add_column_from_values("mixed", &[Value::Int(1), text("x"), Value::Int(3)]),
        Err(DataError::TypeMismatch { .. })
    ));

    let replaced = df.with_column(Series::from_ints("age", vec![1, 2, 3])).unwrap();
    assert_eq!(replaced.columns(), vec!["name", "age", "level"]);
    assert_eq!(cells(&replaced, "age"), vec![Value::Int(1), Value::Int(2), Value::Int(3)]);
    let extended = df.with_column(Series::from_ints("rank", vec![1, 2, 3])).unwrap();
    assert_eq!(extended.num_columns(), 4);
    assert!(df.with_column(Series::from_ints("age", vec![1])).is_err());
}

#[test]
fn frame_reset_and_set_index() {
    let df = staff();
    let reset = df.reset_index().unwrap();
    assert_eq!(reset.columns(), vec!["index", "name", "age", "level"]);
    assert_eq!(cells(&reset, "index"), vec![Value::Int(0), Value::Int(1), Value::Int(2)]);

    let indexed = df.set_index("age").unwrap();
    assert_eq!(indexed.columns(), vec!["age", "name", "level"]);
    assert!(matches!(df.set_index("nonexistent"), Err(DataError::ColumnNotFound(c)) if c == "nonexistent"));
}

#[test]
fn frame_cross_join_names_and_empty_sides() {
    let left = DataFrame::from_series(vec![Series::from_ints("id", vec![1, 2])]).unwrap();
    let right = DataFrame::from_series(vec![Series::from_ints("id", vec![7, 8, 9])]).unwrap();
    let crossed = left.cross_join(&right).unwrap();
    assert_eq!(crossed.columns(), vec!["id", "id_right"]);
    assert_eq!(cells(&crossed, "id"), vec![Value::Int(1), Value::Int(1), Value::Int(1), Value::Int(2), Value::Int(2), Value::Int(2)]);
    assert_eq!(cells(&crossed, "id_right"), vec![Value::Int(7), Value::Int(8), Value::Int(9), Value::Int(7), Value::Int(8), Value::Int(9)]);

    let empty_right = right.head(0).unwrap();
    let both_empty = left.head(0).unwrap().cross_join(&empty_right).unwrap();
    assert_eq!(both_empty.columns(), vec!["id", "id"]);
    assert_eq!(both_empty.num_rows(), 0);
    // With rows on one side only, the columns are not as long as each other.
    assert!(matches!(left.cross_join(&empty_right), Err(DataError::SchemaMismatch(_))));
}

#[test]
fn frame_merge_values_and_errors() {
    let left = DataFrame::from_series(vec![
        Series::from_ints("id", vec![1, 2, 3]),
        Series::from_strings("name", vec!["Alice", "Bob", "Charlie"]),
    ])
    .unwrap();
    let right = DataFrame::from_series(vec![Series::from_ints("id", vec![2, 3, 4]), Series::from_ints("score", vec![85, 90, 95])]).unwrap();
    let left_join = left.merge(&right, &["id"], "left", ("_x", "_y")).unwrap();
    assert_eq!(cells(&left_join, "score"), vec![Value::Null, Value::Int(85), Value::Int(90)]);
    let outer = left.merge(&right, &["id"], "outer", ("_x", "_y")).unwrap();
    assert_eq!(outer.num_rows(), 4);
    assert!(matches!(left.merge(&right, &["key"], "inner", ("_x", "_y")), Err(DataError::ColumnNotFound(_))));
    assert!(matches!(left.merge(&right, &["id"], "sideways", ("_x", "_y")), Err(DataError::InvalidOperation(_))));
}

#[test]
fn frame_pivot_table_count() {
    let product = Series::from_strings("product", vec!["A", "A", "A", "B", "B"]);
    let quarter = Series::from_strings("quarter", vec!["Q1", "Q1", "Q2", "Q1", "Q2"]);
    let sales = Series::from_ints("sales", vec![100, 50, 150, 200, 250]);
    let df = DataFrame::from_series(vec![product, quarter, sales]).unwrap();
    let counted = df.pivot_table("product", "quarter", "sales", "count").unwrap();
    assert_eq!(counted.columns(), vec!["product", "Q1", "Q2"]);
    assert_eq!(cells(&counted, "Q1"), vec![Value::Int(2), Value::Int(1)]);
    let first = df.pivot_table("product", "quarter", "sales", "first").unwrap();
    assert_eq!(cells(&first, "Q1"), vec![Value::Int(100), Value::Int(200)]);
    assert!(matches!(df.unstack("product", "region", "sales"), Err(DataError::ColumnNotFound(c)) if c == "region"));
}

#[test]
fn test_value_counts() {
    let names = Series::from_strings("name", vec!["Alice", "Bob", "Alice", "Charlie", "Alice"]);
    let df = DataFrame::from_series(vec![names]).unwrap();

    let counts = df.value_counts("name").unwrap();

    assert_eq!(counts.num_columns(), 2);
    assert_eq!(counts.num_rows(), 3);

    let name_col = counts.column("name").unwrap();
    assert_eq!(name_col.get(0).unwrap(), text("Alice"));

    let count_col = counts.column("count").unwrap();
    assert_eq!(count_col.get(0).unwrap(), Value::Int(3));
}

#[test]
fn frame_value_counts_order_and_nulls() {
    let df = staff_with_nulls();
    let counts = DataFrame::from_series(vec![Series::from_optional_ints("x", vec![Some(2), None, Some(1), Some(2), None, Some(3), None])])
        .unwrap()
        .value_counts("x")
        .unwrap();
    // Most frequent first; equally frequent values in the order they first occur.
    assert_eq!(cells(&counts, "x"), vec![Value::Null, Value::Int(2), Value::Int(1), Value::Int(3)]);
    assert_eq!(cells(&counts, "count"), vec![Value::Int(3), Value::Int(2), Value::Int(1), Value::Int(1)]);
    assert!(matches!(df.value_counts("salary"), Err(DataError::ColumnNotFound(c)) if c == "salary"));
    let empty = df.head(0).unwrap().value_counts("age").unwrap();
    assert_eq!(empty.num_rows(), 0);
}

#[test]
fn frame_concat_and_append() {
    let df1 = staff();
    let df2 = staff().tail(1).unwrap();
    let both = DataFrame::concat(&[&df1, &df2]).unwrap();
    assert_eq!(both.num_rows(), 4);
    assert_eq!(both.columns(), vec!["name", "age", "level"]);
    assert_eq!(cells(&both, "age"), vec![Value::Int(30), Value::Int(25), Value::Int(35), Value::Int(35)]);

    let appended = df1.append(&df2).unwrap();
    assert_eq!(appended.num_rows(), 4);
    assert_eq!(cells(&appended, "name")[3], text("Charlie"));

    let alone = DataFrame::concat(&[&df1]).unwrap();
    assert_eq!(alone.num_rows(), 3);
    assert!(matches!(DataFrame::concat(&[]), Err(DataError::EmptyData)));
}

#[test]
fn frame_concat_mismatched_columns_message() {
    let df1 = DataFrame::from_series(vec![Series::from_strings("name", vec!["Alice"]), Series::from_ints("age", vec![30])]).unwrap();
    let df2 = DataFrame::from_series(vec![Series::from_strings("name", vec!["Bob"]), Series::from_ints("level", vec![2])]).unwrap();
    let err = DataFrame::concat(&[&df1, &df1, &df2]).unwrap_err();
    assert_eq!(
        err.to_string(),
        "schema mismatch: DataFrame at index 2 has different columns: expected [\"name\", \"age\"], got [\"name\", \"level\"]"
    );
}

#[test]
fn frame_clone_keeps_columns() {
    let df = staff();
    let copy = df.clone();
    assert_eq!(copy.columns(), df.columns());
    assert_eq!(cells(&copy, "level"), cells(&df, "level"));
}

#[test]
fn frame_sort_by_one_and_two_keys() {
    let df = staff();
    let up = df.sort_by(&[("age", false)]).unwrap();
    assert_eq!(cells(&up, "age"), vec![Value::Int(25), Value::Int(30), Value::Int(35)]);
    assert_eq!(cells(&up, "name"), vec![text("Bob"), text("Alice"), text("Charlie")]);
    let down = df.sort_by(&[("age", true)]).unwrap();
    assert_eq!(cells(&down, "age"), vec![Value::Int(35), Value::Int(30), Value::Int(25)]);
    let by_name = df.sort_by(&[("name", true)]).unwrap();
    assert_eq!(cells(&by_name, "name"), vec![text("Charlie"), text("Bob"), text("Alice")]);

    let teams = DataFrame::from_series(vec![
        Series::from_strings("team", vec!["b", "a", "b", "a", "a"]),
        Series::from_optional_ints("score", vec![Some(1), None, Some(3), Some(2), Some(2)]),
        Series::from_ints("id", vec![0, 1, 2, 3, 4]),
    ])
    .unwrap();
    let sorted = teams.sort_by(&[("team", false), ("score", true)]).unwrap();
    // Missing values go last; rows the keys tie keep their order.
    assert_eq!(cells(&sorted, "id"), vec![Value::Int(3), Value::Int(4), Value::Int(1), Value::Int(2), Value::Int(0)]);
    assert_eq!(sorted.column("score").unwrap().data_type(), SeriesType::Int64);
}

#[test]
fn frame_sort_by_edges() {
    let df = staff();
    assert!(matches!(df.sort_by(&[("age", false), ("salary", true)]), Err(DataError::ColumnNotFound(c)) if c == "salary"));
    assert_eq!(cells(&df.sort_by(&[]).unwrap(), "age"), cells(&df, "age"));
    // A table without rows is left as it is, whatever the names.
    let empty = df.head(0).unwrap();
    assert_eq!(empty.sort_by(&[("salary", false)]).unwrap().num_columns(), 3);
}

#[test]
fn test_empty_dataframe() {
    let df = DataFrame::empty(vec![("a".to_string(), SeriesType::Int64)]);
    assert!(df.is_empty());
    assert_eq!(df.num_columns(), 1);
}

#[test]
fn empty_frame_keeps_names_and_types() {
    let df = DataFrame::empty(vec![("a".to_string(), SeriesType::Int64), ("b".to_string(), SeriesType::Utf8)]);
    assert_eq!(df.num_rows(), 0);
    assert_eq!(df.columns(), vec!["a", "b"]);
    assert_eq!(df.column("b").unwrap().data_type(), SeriesType::Utf8);
}
