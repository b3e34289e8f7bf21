use stratum_core::data::dataframe::DataFrame;
use stratum_core::data::error::DataError;
use stratum_core::data::join::JoinSpec;
use stratum_core::data::series::Series;
use stratum_core::data::value::Value;

fn users_df() -> DataFrame {
    let ids = Series::from_ints("user_id", vec![1, 2, 3, 4]);
    let names = Series::from_strings("name", vec!["Alice", "Bob", "Charlie", "Diana"]);
    DataFrame::from_series(vec![ids, names]).unwrap()
}

fn orders_df() -> DataFrame {
    let user_ids = Series::from_ints("user_id", vec![1, 1, 2, 5]);
    let amounts = Series::from_ints("amount", vec![100, 150, 200, 50]);
    DataFrame::from_series(vec![user_ids, amounts]).unwrap()
}

fn cells(df: &DataFrame, name: &str) -> Vec<Value> {
    df.column(name).unwrap().to_values().unwrap()
}

#[test]
fn test_inner_join() {
    let users = users_df();
    let orders = orders_df();
    let spec = JoinSpec::on("user_id");

    let result = users.join(&orders, &spec).unwrap();

    assert_eq!(result.num_rows(), 3);
    assert_eq!(result.columns(), vec!["user_id", "name", "amount"]);
}

#[test]
fn test_left_join() {
    let users = users_df();
    let orders = orders_df();
    let spec = JoinSpec::left("user_id");

    let result = users.join(&orders, &spec).unwrap();

    assert_eq!(result.num_rows(), 5);

    let name_col = result.column("name").unwrap();
    let amount_col = result.column("amount").unwrap();

    let mut found_charlie = false;
    for i in 0..result.num_rows() {
        let name = name_col.get(i).unwrap();
        if let Value::String(s) = name {
            if s.as_str() == "Charlie" || s.as_str() == "Diana" {
                let amount = amount_col.get(i).unwrap();
                assert!(matches!(amount, Value::Null));
                found_charlie = true;
            }
        }
    }
    assert!(found_charlie);
}

#[test]
fn test_right_join() {
    let users = users_df();
    let orders = orders_df();
    let spec = JoinSpec::right("user_id");

    let result = users.join(&orders, &spec).unwrap();

    assert_eq!(result.num_rows(), 4);

    let user_id_col = result.column("user_id").unwrap();
    let name_col = result.column("name").unwrap();

    let mut found_user_5 = false;
    for i in 0..result.num_rows() {
        let user_id = user_id_col.get(i).unwrap();
        if let Value::Int(5) = user_id {
            let name = name_col.get(i).unwrap();
            assert!(matches!(name, Value::Null));
            found_user_5 = true;
        }
    }
    assert!(found_user_5);
}

#[test]
fn test_outer_join() {
    let users = users_df();
    let orders = orders_df();
    let spec = JoinSpec::outer("user_id");

    let result = users.join(&orders, &spec).unwrap();

    assert_eq!(result.num_rows(), 6);
}

#[test]
fn test_join_different_column_names() {
    let left = {
        let ids = Series::from_ints("id", vec![1, 2, 3]);
        let values = Series::from_strings("val", vec!["a", "b", "c"]);
        DataFrame::from_series(vec![ids, values]).unwrap()
    };

    let right = {
        let ids = Series::from_ints("ref_id", vec![1, 2, 4]);
        let scores = Series::from_ints("score", vec![10, 20, 40]);
        DataFrame::from_series(vec![ids, scores]).unwrap()
    };

    let spec = JoinSpec::cols("id", "ref_id");
    let result = left.join(&right, &spec).unwrap();

    assert_eq!(result.num_rows(), 2);
    assert_eq!(result.columns(), vec!["id", "val", "ref_id", "score"]);
}

#[test]
fn test_join_column_name_conflict() {
    let left = {
        let ids = Series::from_ints("id", vec![1, 2]);
        let values = Series::from_strings("value", vec!["a", "b"]);
        DataFrame::from_series(vec![ids, values]).unwrap()
    };

    let right = {
        let ids = Series::from_ints("id", vec![1, 2]);
        let values = Series::from_strings("value", vec!["x", "y"]);
        DataFrame::from_series(vec![ids, values]).unwrap()
    };

    let spec = JoinSpec::on("id");
    let result = left.join(&right, &spec).unwrap();

    assert_eq!(result.columns(), vec!["id", "value", "value_right"]);
}

#[test]
fn join_values_in_row_order() {
    let result = users_df().join(&orders_df(), &JoinSpec::outer("user_id")).unwrap();
    assert_eq!(
        cells(&result, "user_id"),
        vec![Value::Int(1), Value::Int(1), Value::Int(2), Value::Int(3), Value::Int(4), Value::Int(5)]
    );
    assert_eq!(
        cells(&result, "amount"),
        vec![Value::Int(100), Value::Int(150), Value::Int(200), Value::Null, Value::Null, Value::Int(50)]
    );
    // With differently named keys an unmatched right row leaves the left key missing.
    let renamed = orders_df().rename_column("user_id", "uid").unwrap();
    let by_cols = users_df().join(&renamed, &JoinSpec::outer_cols("user_id", "uid")).unwrap();
    assert_eq!(by_cols.columns(), vec!["user_id", "name", "uid", "amount"]);
    assert_eq!(cells(&by_cols, "user_id")[5], Value::Null);
    assert_eq!(cells(&by_cols, "uid")[5], Value::Int(5));
}

#[test]
fn join_missing_key_columns() {
    let users = users_df();
    let orders = orders_df();
    assert!(matches!(users.join(&orders, &JoinSpec::cols("id", "user_id")), Err(DataError::ColumnNotFound(c)) if c == "id"));
    assert!(matches!(users.join(&orders, &JoinSpec::cols("user_id", "uid")), Err(DataError::ColumnNotFound(c)) if c == "uid"));
}
