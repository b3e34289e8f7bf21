use stratum_core::data::error::DataError;
use stratum_core::data::reshape::{pivot, pivot_table, unstack};
use stratum_core::data::value::Value;

type Table = Vec<(String, Vec<Value>)>;

fn ints(name: &str, xs: &[i64]) -> (String, Vec<Value>) {
    (name.to_string(), xs.iter().map(|x| Value::Int(*x)).collect())
}

fn strs(name: &str, xs: &[&str]) -> (String, Vec<Value>) {
    (name.to_string(), xs.iter().map(|x| Value::String(x.to_string())).collect())
}

fn names(t: &Table) -> Vec<String> {
    t.iter().map(|c| c.0.clone()).collect()
}

#[test]
fn table_unstack() {
    let df = vec![
        strs("person", &["Alice", "Alice", "Bob", "Bob"]),
        strs("metric", &["age", "score", "age", "score"]),
        ints("value", &[30, 85, 25, 92]),
    ];
    let unstacked = unstack(&df, 4, "person", "metric", "value").unwrap();
    assert_eq!(unstacked.len(), 3);
    assert_eq!(unstacked[0].1.len(), 2);
    assert!(names(&unstacked).contains(&"person".to_string()));
    assert!(names(&unstacked).contains(&"age".to_string()));
    assert!(names(&unstacked).contains(&"score".to_string()));
}

#[test]
fn table_pivot() {
    let df = vec![
        strs("product", &["A", "A", "B", "B"]),
        strs("quarter", &["Q1", "Q2", "Q1", "Q2"]),
        ints("sales", &[100, 150, 200, 250]),
    ];
    let pivoted = pivot(&df, 4, "product", "quarter", "sales").unwrap();
    assert_eq!(pivoted.len(), 3);
    assert_eq!(pivoted[0].1.len(), 2);
    assert!(names(&pivoted).contains(&"product".to_string()));
    assert!(names(&pivoted).contains(&"Q1".to_string()));
    assert!(names(&pivoted).contains(&"Q2".to_string()));
}

fn sales() -> Table {
    vec![
        strs("product", &["A", "A", "A", "B", "B"]),
        ints("quarter", &[1, 1, 2, 1, 3]),
        ints("sales", &[100, 50, 150, 200, 250]),
    ]
}

#[test]
fn unstack_cells_take_the_last_value_or_null() {
    let t = unstack(&sales(), 5, "product", "quarter", "sales").unwrap();
    assert_eq!(names(&t), vec!["product", "1", "2", "3"]);
    assert_eq!(t[0].1, vec![Value::String("A".into()), Value::String("B".into())]);
    assert_eq!(t[1].1, vec![Value::Int(50), Value::Int(200)]);
    assert_eq!(t[2].1, vec![Value::Int(150), Value::Null]);
    assert_eq!(t[3].1, vec![Value::Null, Value::Int(250)]);
}

#[test]
fn pivot_table_count_first_last() {
    let count = pivot_table(&sales(), 5, "product", "quarter", "sales", "count").unwrap();
    assert_eq!(count[1].1, vec![Value::Int(2), Value::Int(1)]);
    assert_eq!(count[3].1, vec![Value::Null, Value::Int(1)]);
    let first = pivot_table(&sales(), 5, "product", "quarter", "sales", "first").unwrap();
    assert_eq!(first[1].1, vec![Value::Int(100), Value::Int(200)]);
    let last = pivot_table(&sales(), 5, "product", "quarter", "sales", "last").unwrap();
    assert_eq!(last[1].1, vec![Value::Int(50), Value::Int(200)]);
    let other = pivot_table(&sales(), 5, "product", "quarter", "sales", "median").unwrap();
    assert_eq!(other[1].1, vec![Value::Int(100), Value::Int(200)]);
}

#[test]
fn reshape_headers_of_other_values() {
    let t = vec![
        ints("k", &[1, 1, 1]),
        (String::from("c"), vec![Value::Null, Value::Bool(true), Value::Int(-4)]),
        ints("v", &[7, 8, 9]),
    ];
    let u = unstack(&t, 3, "k", "c", "v").unwrap();
    assert_eq!(names(&u), vec!["k", "null", "true", "-4"]);
}

#[test]
fn reshape_missing_columns() {
    let r = unstack(&sales(), 5, "product", "region", "sales");
    assert!(matches!(r, Err(DataError::ColumnNotFound(c)) if c == "region"));
    let r = pivot_table(&sales(), 5, "store", "region", "sales", "count");
    assert!(matches!(r, Err(DataError::ColumnNotFound(c)) if c == "store"));
}
