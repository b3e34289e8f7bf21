use stratum_core::data::error::DataError;
use stratum_core::data::merge::merge;
use stratum_core::data::value::Value;

type Table = Vec<(String, Vec<Value>)>;

fn ints(name: &str, xs: &[i64]) -> (String, Vec<Value>) {
    (name.to_string(), xs.iter().map(|x| Value::Int(*x)).collect())
}

fn strs(name: &str, xs: &[&str]) -> (String, Vec<Value>) {
    (name.to_string(), xs.iter().map(|x| Value::String(x.to_string())).collect())
}

fn names(t: &Table) -> Vec<String> {
    t.iter().map(|c| c.0.clone()).collect()
}

fn on(cols: &[&str]) -> Vec<String> {
    cols.iter().map(|c| c.to_string()).collect()
}

fn people() -> Table {
    vec![ints("id", &[1, 2, 3]), strs("name", &["Alice", "Bob", "Charlie"])]
}

fn scores() -> Table {
    vec![ints("id", &[2, 3, 4]), ints("score", &[85, 90, 95])]
}

#[test]
fn table_merge_inner() {
    let result = merge(&people(), 3, &scores(), 3, &on(&["id"]), "inner", ("_x", "_y")).unwrap();
    assert_eq!(result[0].1.len(), 2);
    assert!(names(&result).contains(&"id".to_string()));
    assert!(names(&result).contains(&"name".to_string()));
    assert!(names(&result).contains(&"score".to_string()));
}

#[test]
fn table_merge_left() {
    let result = merge(&people(), 3, &scores(), 3, &on(&["id"]), "left", ("_x", "_y")).unwrap();
    assert_eq!(result[0].1.len(), 3);
}

#[test]
fn table_merge_with_suffixes() {
    let left = vec![ints("id", &[1, 2]), ints("value", &[10, 20])];
    let right = vec![ints("id", &[1, 2]), ints("value", &[100, 200])];
    let result = merge(&left, 2, &right, 2, &on(&["id"]), "inner", ("_left", "_right")).unwrap();
    assert!(names(&result).contains(&"value_left".to_string()));
    assert!(names(&result).contains(&"value_right".to_string()));
}

#[test]
fn merge_inner_values() {
    let result = merge(&people(), 3, &scores(), 3, &on(&["id"]), "inner", ("_x", "_y")).unwrap();
    assert_eq!(names(&result), vec!["id", "name", "score"]);
    assert_eq!(result[0].1, vec![Value::Int(2), Value::Int(3)]);
    assert_eq!(result[1].1, vec![Value::String("Bob".into()), Value::String("Charlie".into())]);
    assert_eq!(result[2].1, vec![Value::Int(85), Value::Int(90)]);
}

#[test]
fn merge_left_right_and_outer_rows() {
    let left = merge(&people(), 3, &scores(), 3, &on(&["id"]), "left", ("_x", "_y")).unwrap();
    assert_eq!(left[2].1, vec![Value::Null, Value::Int(85), Value::Int(90)]);
    let right = merge(&people(), 3, &scores(), 3, &on(&["id"]), "right", ("_x", "_y")).unwrap();
    // the key comes from the left side, so the unmatched right row has none
    assert_eq!(right[0].1, vec![Value::Int(2), Value::Int(3), Value::Null]);
    assert_eq!(right[2].1, vec![Value::Int(85), Value::Int(90), Value::Int(95)]);
    for how in ["outer", "full"] {
        let outer = merge(&people(), 3, &scores(), 3, &on(&["id"]), how, ("_x", "_y")).unwrap();
        assert_eq!(outer[0].1, vec![Value::Int(1), Value::Int(2), Value::Int(3), Value::Null]);
        assert_eq!(outer[2].1, vec![Value::Null, Value::Int(85), Value::Int(90), Value::Int(95)]);
    }
}

#[test]
fn merge_repeated_keys_pair_every_match() {
    let left = vec![ints("k", &[1, 1]), strs("l", &["a", "b"])];
    let right = vec![ints("k", &[1, 2, 1]), strs("r", &["x", "y", "z"])];
    let result = merge(&left, 2, &right, 3, &on(&["k"]), "inner", ("_x", "_y")).unwrap();
    let l: Vec<Value> = ["a", "a", "b", "b"].iter().map(|s| Value::String(s.to_string())).collect();
    let r: Vec<Value> = ["x", "z", "x", "z"].iter().map(|s| Value::String(s.to_string())).collect();
    assert_eq!(result[1].1, l);
    assert_eq!(result[2].1, r);
}

#[test]
fn merge_on_two_columns_and_null_keys() {
    let left = vec![ints("a", &[1, 1, 2]), (String::from("b"), vec![Value::Null, Value::Int(5), Value::Int(5)])];
    let right = vec![(String::from("b"), vec![Value::Int(5), Value::Null]), ints("a", &[1, 1]), strs("v", &["p", "q"])];
    let result = merge(&left, 3, &right, 2, &on(&["a", "b"]), "inner", ("_x", "_y")).unwrap();
    assert_eq!(names(&result), vec!["a", "b", "v"]);
    assert_eq!(result[2].1, vec![Value::String("q".into()), Value::String("p".into())]);
}

#[test]
fn merge_errors() {
    let r = merge(&people(), 3, &scores(), 3, &on(&["name"]), "inner", ("_x", "_y"));
    assert!(matches!(r, Err(DataError::ColumnNotFound(m)) if m == "join column 'name' not found in right DataFrame"));
    let r = merge(&people(), 3, &scores(), 3, &on(&["score"]), "inner", ("_x", "_y"));
    assert!(matches!(r, Err(DataError::ColumnNotFound(m)) if m == "join column 'score' not found in left DataFrame"));
    let r = merge(&people(), 3, &scores(), 3, &on(&["id"]), "sideways", ("_x", "_y"));
    assert!(matches!(r, Err(DataError::InvalidOperation(m))
        if m == "unsupported join type 'sideways': use 'inner', 'left', 'right', or 'outer'"));
}
