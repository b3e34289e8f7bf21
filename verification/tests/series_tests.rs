use stratum_core::data::error::DataError;
use stratum_core::data::series::{Series, SeriesType};
use stratum_core::data::value::Value;

fn text(s: &str) -> Value {
    Value::String(s.to_string())
}

#[test]
fn test_from_ints() {
    let series = Series::from_ints("numbers", vec![1, 2, 3, 4, 5]);
    assert_eq!(series.name(), "numbers");
    assert_eq!(series.len(), 5);
    assert_eq!(series.data_type(), SeriesType::Int64);
}

#[test]
fn test_from_strings() {
    let series = Series::from_strings("names", vec!["alice", "bob", "charlie"]);
    assert_eq!(series.len(), 3);
    assert_eq!(series.data_type(), SeriesType::Utf8);
}

#[test]
fn test_get_values() {
    let series = Series::from_ints("nums", vec![10, 20, 30]);
    assert_eq!(series.get(0).unwrap(), Value::Int(10));
    assert_eq!(series.get(1).unwrap(), Value::Int(20));
    assert_eq!(series.get(2).unwrap(), Value::Int(30));
    assert!(series.get(3).is_err());
}

#[test]
fn test_optional_values() {
    let series = Series::from_optional_ints("nums", vec![Some(1), None, Some(3)]);
    assert_eq!(series.len(), 3);
    assert_eq!(series.null_count(), 1);
    assert!(!series.is_null(0));
    assert!(series.is_null(1));
    assert!(!series.is_null(2));
    assert_eq!(series.get(1).unwrap(), Value::Null);
}

#[test]
fn test_rename() {
    let series = Series::from_ints("old", vec![1, 2, 3]);
    let renamed = series.rename("new");
    assert_eq!(renamed.name(), "new");
}

#[test]
fn test_helper_methods() {
    let int_series = Series::from_ints("a", vec![1, 2, 3]);
    assert!(int_series.is_numeric());
    assert!(!int_series.is_boolean());

    let bool_series = Series::from_bools("b", vec![true, false]);
    assert!(!bool_series.is_numeric());
    assert!(bool_series.is_boolean());
}

#[test]
fn test_is_string() {
    let str_series = Series::from_strings("s", vec!["a", "b", "c"]);
    assert!(str_series.is_string());

    let int_series = Series::from_ints("i", vec![1, 2, 3]);
    assert!(!int_series.is_string());
}

#[test]
fn test_str_len() {
    let s = Series::from_strings("names", vec!["hello", "hi", "world"]);
    let result = s.str_len().unwrap();
    assert_eq!(result.get(0).unwrap(), Value::Int(5));
    assert_eq!(result.get(1).unwrap(), Value::Int(2));
    assert_eq!(result.get(2).unwrap(), Value::Int(5));
}

#[test]
fn test_str_contains() {
    let s = Series::from_strings("text", vec!["hello world", "hi there", "goodbye"]);
    let result = s.str_contains("o").unwrap();
    assert_eq!(result.get(0).unwrap(), Value::Bool(true));
    assert_eq!(result.get(1).unwrap(), Value::Bool(false));
    assert_eq!(result.get(2).unwrap(), Value::Bool(true));
}

#[test]
fn test_str_starts_with() {
    let s = Series::from_strings("text", vec!["hello", "hi", "world"]);
    let result = s.str_starts_with("h").unwrap();
    assert_eq!(result.get(0).unwrap(), Value::Bool(true));
    assert_eq!(result.get(1).unwrap(), Value::Bool(true));
    assert_eq!(result.get(2).unwrap(), Value::Bool(false));
}

#[test]
fn test_str_ends_with() {
    let s = Series::from_strings("text", vec!["hello", "world", "hi"]);
    let result = s.str_ends_with("o").unwrap();
    assert_eq!(result.get(0).unwrap(), Value::Bool(true));
    assert_eq!(result.get(1).unwrap(), Value::Bool(false));
    assert_eq!(result.get(2).unwrap(), Value::Bool(false));
}

#[test]
fn test_str_to_lowercase() {
    let s = Series::from_strings("text", vec!["HELLO", "World", "hi"]);
    let result = s.str_to_lowercase().unwrap();
    assert_eq!(result.get(0).unwrap(), text("hello"));
    assert_eq!(result.get(1).unwrap(), text("world"));
    assert_eq!(result.get(2).unwrap(), text("hi"));
}

#[test]
fn test_str_to_uppercase() {
    let s = Series::from_strings("text", vec!["hello", "World", "HI"]);
    let result = s.str_to_uppercase().unwrap();
    assert_eq!(result.get(0).unwrap(), text("HELLO"));
    assert_eq!(result.get(1).unwrap(), text("WORLD"));
    assert_eq!(result.get(2).unwrap(), text("HI"));
}

#[test]
fn test_str_trim() {
    let s = Series::from_strings("text", vec!["  hello  ", "\tworld\n", "hi"]);
    let result = s.str_trim().unwrap();
    assert_eq!(result.get(0).unwrap(), text("hello"));
    assert_eq!(result.get(1).unwrap(), text("world"));
    assert_eq!(result.get(2).unwrap(), text("hi"));
}

#[test]
fn test_str_trim_start() {
    let s = Series::from_strings("text", vec!["  hello", "\tworld", "hi"]);
    let result = s.str_trim_start().unwrap();
    assert_eq!(result.get(0).unwrap(), text("hello"));
    assert_eq!(result.get(1).unwrap(), text("world"));
    assert_eq!(result.get(2).unwrap(), text("hi"));
}

#[test]
fn test_str_trim_end() {
    let s = Series::from_strings("text", vec!["hello  ", "world\t", "hi"]);
    let result = s.str_trim_end().unwrap();
    assert_eq!(result.get(0).unwrap(), text("hello"));
    assert_eq!(result.get(1).unwrap(), text("world"));
    assert_eq!(result.get(2).unwrap(), text("hi"));
}

#[test]
fn test_str_replace() {
    let s = Series::from_strings("text", vec!["hello world", "foo bar", "test"]);
    let result = s.str_replace("o", "0").unwrap();
    assert_eq!(result.get(0).unwrap(), text("hell0 w0rld"));
    assert_eq!(result.get(1).unwrap(), text("f00 bar"));
    assert_eq!(result.get(2).unwrap(), text("test"));
}

#[test]
fn test_str_split_get() {
    let s = Series::from_strings("text", vec!["a,b,c", "x,y", "foo"]);
    let result = s.str_split_get(",", 1).unwrap();
    assert_eq!(result.get(0).unwrap(), text("b"));
    assert_eq!(result.get(1).unwrap(), text("y"));
    assert_eq!(result.get(2).unwrap(), Value::Null);
}

#[test]
fn test_str_operations_with_nulls() {
    let values = vec![text("hello"), Value::Null, text("world")];
    let s = Series::from_values("text", &values).unwrap();

    let contains = s.str_contains("o").unwrap();
    assert_eq!(contains.get(0).unwrap(), Value::Bool(true));
    assert_eq!(contains.get(1).unwrap(), Value::Null);
    assert_eq!(contains.get(2).unwrap(), Value::Bool(true));

    let upper = s.str_to_uppercase().unwrap();
    assert_eq!(upper.get(0).unwrap(), text("HELLO"));
    assert_eq!(upper.get(1).unwrap(), Value::Null);
    assert_eq!(upper.get(2).unwrap(), text("WORLD"));
}

#[test]
fn test_str_operations_on_non_string_fails() {
    let s = Series::from_ints("nums", vec![1, 2, 3]);
    assert!(s.str_len().is_err());
    assert!(s.str_contains("a").is_err());
    assert!(s.str_to_lowercase().is_err());
}

#[test]
fn test_str_pad() {
    let s = Series::from_strings("nums", vec!["1", "22", "333"]);

    let left = s.str_pad(5, "left", '0').unwrap();
    assert_eq!(left.get(0).unwrap(), text("00001"));
    assert_eq!(left.get(1).unwrap(), text("00022"));
    assert_eq!(left.get(2).unwrap(), text("00333"));

    let right = s.str_pad(5, "right", '-').unwrap();
    assert_eq!(right.get(0).unwrap(), text("1----"));
    assert_eq!(right.get(1).unwrap(), text("22---"));
    assert_eq!(right.get(2).unwrap(), text("333--"));

    let both = s.str_pad(5, "both", '*').unwrap();
    assert_eq!(both.get(0).unwrap(), text("**1**"));
    assert_eq!(both.get(1).unwrap(), text("*22**"));
    assert_eq!(both.get(2).unwrap(), text("*333*"));

    let no_pad = s.str_pad(2, "left", '0').unwrap();
    assert_eq!(no_pad.get(0).unwrap(), text("01"));
    assert_eq!(no_pad.get(1).unwrap(), text("22"));
    assert_eq!(no_pad.get(2).unwrap(), text("333"));
}

#[test]
fn test_str_cat() {
    let first = Series::from_strings("first", vec!["John", "Jane", "Bob"]);
    let last = Series::from_strings("last", vec!["Doe", "Smith", "Jones"]);

    let full = first.str_cat(&last, " ").unwrap();
    assert_eq!(full.get(0).unwrap(), text("John Doe"));
    assert_eq!(full.get(1).unwrap(), text("Jane Smith"));
    assert_eq!(full.get(2).unwrap(), text("Bob Jones"));

    let values1 = vec![text("a"), Value::Null, text("c")];
    let values2 = vec![text("1"), text("2"), Value::Null];
    let s1 = Series::from_values("s1", &values1).unwrap();
    let s2 = Series::from_values("s2", &values2).unwrap();
    let result = s1.str_cat(&s2, "-").unwrap();
    assert_eq!(result.get(0).unwrap(), text("a-1"));
    assert_eq!(result.get(1).unwrap(), Value::Null);
    assert_eq!(result.get(2).unwrap(), Value::Null);
}

#[test]
fn test_str_slice() {
    let s = Series::from_strings("text", vec!["hello", "world", "hi"]);

    let sliced = s.str_slice(1, Some(4)).unwrap();
    assert_eq!(sliced.get(0).unwrap(), text("ell"));
    assert_eq!(sliced.get(1).unwrap(), text("orl"));
    assert_eq!(sliced.get(2).unwrap(), text("i"));

    let to_end = s.str_slice(2, None).unwrap();
    assert_eq!(to_end.get(0).unwrap(), text("llo"));
    assert_eq!(to_end.get(1).unwrap(), text("rld"));
    assert_eq!(to_end.get(2).unwrap(), text(""));

    let neg = s.str_slice(-3, None).unwrap();
    assert_eq!(neg.get(0).unwrap(), text("llo"));
    assert_eq!(neg.get(1).unwrap(), text("rld"));
    assert_eq!(neg.get(2).unwrap(), text("hi"));
}

#[test]
fn test_cumsum() {
    let s = Series::from_ints("nums", vec![1, 2, 3, 4, 5]);
    let result = s.cumsum().unwrap();
    assert_eq!(result.get(0).unwrap(), Value::Int(1));
    assert_eq!(result.get(1).unwrap(), Value::Int(3));
    assert_eq!(result.get(2).unwrap(), Value::Int(6));
    assert_eq!(result.get(3).unwrap(), Value::Int(10));
    assert_eq!(result.get(4).unwrap(), Value::Int(15));
}

#[test]
fn test_cummax() {
    let s = Series::from_ints("nums", vec![3, 1, 4, 1, 5]);
    let result = s.cummax().unwrap();
    assert_eq!(result.get(0).unwrap(), Value::Int(3));
    assert_eq!(result.get(1).unwrap(), Value::Int(3));
    assert_eq!(result.get(2).unwrap(), Value::Int(4));
    assert_eq!(result.get(3).unwrap(), Value::Int(4));
    assert_eq!(result.get(4).unwrap(), Value::Int(5));
}

#[test]
fn test_cummin() {
    let s = Series::from_ints("nums", vec![5, 3, 4, 1, 2]);
    let result = s.cummin().unwrap();
    assert_eq!(result.get(0).unwrap(), Value::Int(5));
    assert_eq!(result.get(1).unwrap(), Value::Int(3));
    assert_eq!(result.get(2).unwrap(), Value::Int(3));
    assert_eq!(result.get(3).unwrap(), Value::Int(1));
    assert_eq!(result.get(4).unwrap(), Value::Int(1));
}

#[test]
fn test_cumprod() {
    let s = Series::from_ints("nums", vec![1, 2, 3, 4]);
    let result = s.cumprod().unwrap();
    assert_eq!(result.get(0).unwrap(), Value::Int(1));
    assert_eq!(result.get(1).unwrap(), Value::Int(2));
    assert_eq!(result.get(2).unwrap(), Value::Int(6));
    assert_eq!(result.get(3).unwrap(), Value::Int(24));
}

#[test]
fn test_shift_positive() {
    let s = Series::from_ints("nums", vec![1, 2, 3, 4, 5]);
    let result = s.shift(2).unwrap();
    assert_eq!(result.get(0).unwrap(), Value::Null);
    assert_eq!(result.get(1).unwrap(), Value::Null);
    assert_eq!(result.get(2).unwrap(), Value::Int(1));
    assert_eq!(result.get(3).unwrap(), Value::Int(2));
    assert_eq!(result.get(4).unwrap(), Value::Int(3));
}

#[test]
fn test_shift_negative() {
    let s = Series::from_ints("nums", vec![1, 2, 3, 4, 5]);
    let result = s.shift(-2).unwrap();
    assert_eq!(result.get(0).unwrap(), Value::Int(3));
    assert_eq!(result.get(1).unwrap(), Value::Int(4));
    assert_eq!(result.get(2).unwrap(), Value::Int(5));
    assert_eq!(result.get(3).unwrap(), Value::Null);
    assert_eq!(result.get(4).unwrap(), Value::Null);
}

#[test]
fn test_diff() {
    let s = Series::from_ints("nums", vec![10, 15, 25, 40]);
    let result = s.diff(1).unwrap();
    assert_eq!(result.get(0).unwrap(), Value::Null);
    assert_eq!(result.get(1).unwrap(), Value::Int(5));
    assert_eq!(result.get(2).unwrap(), Value::Int(10));
    assert_eq!(result.get(3).unwrap(), Value::Int(15));
}

#[test]
fn test_cumsum_with_nulls() {
    let s = Series::from_optional_ints("nums", vec![Some(1), Some(2), None, Some(4)]);
    let result = s.cumsum().unwrap();
    assert_eq!(result.get(0).unwrap(), Value::Int(1));
    assert_eq!(result.get(1).unwrap(), Value::Int(3));
    assert_eq!(result.get(2).unwrap(), Value::Null);
    assert_eq!(result.get(3).unwrap(), Value::Int(7));
}

#[test]
fn test_series_dropna() {
    let s = Series::from_optional_ints("nums", vec![Some(1), None, Some(3), None, Some(5)]);
    let result = s.dropna().unwrap();

    assert_eq!(result.len(), 3);
    assert_eq!(result.null_count(), 0);
    assert_eq!(result.get(0).unwrap(), Value::Int(1));
    assert_eq!(result.get(1).unwrap(), Value::Int(3));
    assert_eq!(result.get(2).unwrap(), Value::Int(5));
}

#[test]
fn test_series_dropna_all_null() {
    let s = Series::from_optional_ints("nums", vec![None, None, None]);
    let result = s.dropna().unwrap();
    assert_eq!(result.len(), 0);
}

#[test]
fn test_series_dropna_no_nulls() {
    let s = Series::from_ints("nums", vec![1, 2, 3]);
    let result = s.dropna().unwrap();
    assert_eq!(result.len(), 3);
}

#[test]
fn test_series_fillna_int() {
    let s = Series::from_optional_ints("nums", vec![Some(1), None, Some(3), None]);
    let result = s.fillna(&Value::Int(0)).unwrap();

    assert_eq!(result.null_count(), 0);
    assert_eq!(result.get(0).unwrap(), Value::Int(1));
    assert_eq!(result.get(1).unwrap(), Value::Int(0));
    assert_eq!(result.get(2).unwrap(), Value::Int(3));
    assert_eq!(result.get(3).unwrap(), Value::Int(0));
}

#[test]
fn test_series_fillna_forward() {
    let s = Series::from_optional_ints("nums", vec![Some(10), None, None, Some(40), None]);
    let result = s.fillna_forward().unwrap();

    assert_eq!(result.get(0).unwrap(), Value::Int(10));
    assert_eq!(result.get(1).unwrap(), Value::Int(10));
    assert_eq!(result.get(2).unwrap(), Value::Int(10));
    assert_eq!(result.get(3).unwrap(), Value::Int(40));
    assert_eq!(result.get(4).unwrap(), Value::Int(40));
}

#[test]
fn test_series_fillna_forward_leading_nulls() {
    let s = Series::from_optional_ints("nums", vec![None, None, Some(30), None]);
    let result = s.fillna_forward().unwrap();

    assert_eq!(result.get(0).unwrap(), Value::Null);
    assert_eq!(result.get(1).unwrap(), Value::Null);
    assert_eq!(result.get(2).unwrap(), Value::Int(30));
    assert_eq!(result.get(3).unwrap(), Value::Int(30));
}

#[test]
fn test_series_fillna_backward() {
    let s = Series::from_optional_ints("nums", vec![None, Some(20), None, None, Some(50)]);
    let result = s.fillna_backward().unwrap();

    assert_eq!(result.get(0).unwrap(), Value::Int(20));
    assert_eq!(result.get(1).unwrap(), Value::Int(20));
    assert_eq!(result.get(2).unwrap(), Value::Int(50));
    assert_eq!(result.get(3).unwrap(), Value::Int(50));
    assert_eq!(result.get(4).unwrap(), Value::Int(50));
}

#[test]
fn test_series_fillna_backward_trailing_nulls() {
    let s = Series::from_optional_ints("nums", vec![Some(10), None, None]);
    let result = s.fillna_backward().unwrap();

    assert_eq!(result.get(0).unwrap(), Value::Int(10));
    assert_eq!(result.get(1).unwrap(), Value::Null);
    assert_eq!(result.get(2).unwrap(), Value::Null);
}

// Further cases.

#[test]
fn series_result_names_carry_the_operation() {
    let s = Series::from_ints("x", vec![1, 2]);
    assert_eq!(s.shift(1).unwrap().name(), "x_shift");
    assert_eq!(s.shift(0).unwrap().name(), "x");
    assert_eq!(s.diff(1).unwrap().name(), "x_diff");
    assert_eq!(s.cumsum().unwrap().name(), "x_cumsum");
    assert_eq!(s.cummax().unwrap().name(), "x_cummax");
    let t = Series::from_strings("t", vec!["a"]);
    assert_eq!(t.str_to_lowercase().unwrap().name(), "t_lower");
    assert_eq!(t.str_split_get(",", 0).unwrap().name(), "t_split");
}

#[test]
fn series_from_values_infers_and_checks_types() {
    let s = Series::from_values("v", &[Value::Null, Value::Bool(true)]).unwrap();
    assert_eq!(s.data_type(), SeriesType::Boolean);
    let all_null = Series::from_values("v", &[Value::Null, Value::Null]).unwrap();
    assert_eq!(all_null.data_type(), SeriesType::Int64);
    let r = Series::from_values("v", &[Value::Int(1), text("x")]);
    assert!(matches!(r, Err(DataError::TypeMismatch { expected, found }) if expected == "Int" && found == "String"));
}

#[test]
fn series_type_errors_name_the_column_type() {
    let b = Series::from_bools("b", vec![true]);
    assert!(matches!(b.cumsum(), Err(DataError::TypeMismatch { expected, found }) if expected == "numeric type" && found == "Boolean"));
    assert!(matches!(b.str_trim(), Err(DataError::TypeMismatch { expected, found }) if expected == "String" && found == "Boolean"));
    let i = Series::from_optional_ints("i", vec![None]);
    assert!(matches!(i.fillna(&text("z")), Err(DataError::TypeMismatch { expected, found }) if expected == "Int" && found == "String"));
    let a = Series::from_strings("a", vec!["p", "q"]);
    let c = Series::from_strings("c", vec!["r"]);
    assert!(matches!(a.str_cat(&c, ""), Err(DataError::SchemaMismatch(m)) if m == "Series length mismatch: 2 vs 1"));
}

#[test]
fn series_sum_min_max_and_counts() {
    let s = Series::from_optional_ints("n", vec![Some(4), None, Some(-2), Some(9)]);
    assert_eq!(s.sum().unwrap(), Value::Int(11));
    assert_eq!(s.min().unwrap(), Value::Int(-2));
    assert_eq!(s.max().unwrap(), Value::Int(9));
    assert_eq!(s.count(), 3);
    let empty = Series::from_strings("e", vec![]);
    assert_eq!(empty.min().unwrap(), Value::Null);
    assert!(empty.sum().is_err());
    assert_eq!(s.to_values().unwrap(), vec![Value::Int(4), Value::Null, Value::Int(-2), Value::Int(9)]);
}

#[test]
fn series_lag_lead_and_wide_shifts() {
    let s = Series::from_strings("s", vec!["a", "b", "c"]);
    assert_eq!(s.lag(-1).unwrap().to_values().unwrap(), vec![Value::Null, text("a"), text("b")]);
    assert_eq!(s.lead(1).unwrap().to_values().unwrap(), vec![text("b"), text("c"), Value::Null]);
    assert_eq!(s.shift(7).unwrap().to_values().unwrap(), vec![Value::Null; 3]);
    assert_eq!(s.shift(-7).unwrap().to_values().unwrap(), vec![Value::Null; 3]);
}

#[test]
fn series_replace_and_split_with_empty_patterns() {
    let s = Series::from_strings("s", vec!["ab"]);
    assert_eq!(s.str_replace("", "-").unwrap().get(0).unwrap(), text("-a-b-"));
    assert_eq!(s.str_split_get("", 0).unwrap().get(0).unwrap(), text(""));
    assert_eq!(s.str_split_get("", 2).unwrap().get(0).unwrap(), text("b"));
    assert_eq!(s.str_split_get("", 3).unwrap().get(0).unwrap(), text(""));
    assert_eq!(s.str_split_get("", 4).unwrap().get(0).unwrap(), Value::Null);
    let t = Series::from_strings("t", vec!["aaa"]);
    assert_eq!(t.str_replace("aa", "b").unwrap().get(0).unwrap(), text("ba"));
}
