use stratum_core::data::error::DataError;
use stratum_core::data::series::{Series, SeriesType};
use stratum_core::data::value::Value;

fn text(s: &str) -> Value {
    Value::String(s.to_string())
}

#[test]
fn test_add_series() {
    let s1 = Series::from_ints("a", vec![1, 2, 3]);
    let s2 = Series::from_ints("b", vec![10, 20, 30]);
    let result = s1.add(&s2).unwrap();
    assert_eq!(result.get(0).unwrap(), Value::Int(11));
    assert_eq!(result.get(1).unwrap(), Value::Int(22));
    assert_eq!(result.get(2).unwrap(), Value::Int(33));
}

#[test]
fn test_add_scalar() {
    let s = Series::from_ints("a", vec![1, 2, 3]);
    let result = s.add_scalar(&Value::Int(10)).unwrap();
    assert_eq!(result.get(0).unwrap(), Value::Int(11));
    assert_eq!(result.get(1).unwrap(), Value::Int(12));
    assert_eq!(result.get(2).unwrap(), Value::Int(13));
}

#[test]
fn test_sub_series() {
    let s1 = Series::from_ints("a", vec![10, 20, 30]);
    let s2 = Series::from_ints("b", vec![1, 2, 3]);
    let result = s1.sub(&s2).unwrap();
    assert_eq!(result.get(0).unwrap(), Value::Int(9));
    assert_eq!(result.get(1).unwrap(), Value::Int(18));
    assert_eq!(result.get(2).unwrap(), Value::Int(27));
}

#[test]
fn test_mul_series() {
    let s1 = Series::from_ints("a", vec![2, 3, 4]);
    let s2 = Series::from_ints("b", vec![10, 10, 10]);
    let result = s1.mul(&s2).unwrap();
    assert_eq!(result.get(0).unwrap(), Value::Int(20));
    assert_eq!(result.get(1).unwrap(), Value::Int(30));
    assert_eq!(result.get(2).unwrap(), Value::Int(40));
}

#[test]
fn test_neg() {
    let s = Series::from_ints("a", vec![1, -2, 3]);
    let result = s.neg().unwrap();
    assert_eq!(result.get(0).unwrap(), Value::Int(-1));
    assert_eq!(result.get(1).unwrap(), Value::Int(2));
    assert_eq!(result.get(2).unwrap(), Value::Int(-3));
}

#[test]
fn test_eq_series() {
    let s1 = Series::from_ints("a", vec![1, 2, 3]);
    let s2 = Series::from_ints("b", vec![1, 0, 3]);
    let result = s1.eq(&s2).unwrap();
    assert_eq!(result.get(0).unwrap(), Value::Bool(true));
    assert_eq!(result.get(1).unwrap(), Value::Bool(false));
    assert_eq!(result.get(2).unwrap(), Value::Bool(true));
}

#[test]
fn test_eq_scalar() {
    let s = Series::from_ints("a", vec![1, 2, 1]);
    let result = s.eq_scalar(&Value::Int(1)).unwrap();
    assert_eq!(result.get(0).unwrap(), Value::Bool(true));
    assert_eq!(result.get(1).unwrap(), Value::Bool(false));
    assert_eq!(result.get(2).unwrap(), Value::Bool(true));
}

#[test]
fn test_lt_series() {
    let s1 = Series::from_ints("a", vec![1, 2, 3]);
    let s2 = Series::from_ints("b", vec![2, 2, 2]);
    let result = s1.lt(&s2).unwrap();
    assert_eq!(result.get(0).unwrap(), Value::Bool(true));
    assert_eq!(result.get(1).unwrap(), Value::Bool(false));
    assert_eq!(result.get(2).unwrap(), Value::Bool(false));
}

#[test]
fn test_gt_scalar() {
    let s = Series::from_ints("a", vec![1, 2, 3]);
    let result = s.gt_scalar(&Value::Int(2)).unwrap();
    assert_eq!(result.get(0).unwrap(), Value::Bool(false));
    assert_eq!(result.get(1).unwrap(), Value::Bool(false));
    assert_eq!(result.get(2).unwrap(), Value::Bool(true));
}

#[test]
fn test_string_comparison() {
    let s = Series::from_strings("a", vec!["apple", "banana", "cherry"]);
    let result = s.eq_scalar(&text("banana")).unwrap();
    assert_eq!(result.get(0).unwrap(), Value::Bool(false));
    assert_eq!(result.get(1).unwrap(), Value::Bool(true));
    assert_eq!(result.get(2).unwrap(), Value::Bool(false));
}

#[test]
fn test_and() {
    let s1 = Series::from_bools("a", vec![true, true, false, false]);
    let s2 = Series::from_bools("b", vec![true, false, true, false]);
    let result = s1.and(&s2).unwrap();
    assert_eq!(result.get(0).unwrap(), Value::Bool(true));
    assert_eq!(result.get(1).unwrap(), Value::Bool(false));
    assert_eq!(result.get(2).unwrap(), Value::Bool(false));
    assert_eq!(result.get(3).unwrap(), Value::Bool(false));
}

#[test]
fn test_or() {
    let s1 = Series::from_bools("a", vec![true, true, false, false]);
    let s2 = Series::from_bools("b", vec![true, false, true, false]);
    let result = s1.or(&s2).unwrap();
    assert_eq!(result.get(0).unwrap(), Value::Bool(true));
    assert_eq!(result.get(1).unwrap(), Value::Bool(true));
    assert_eq!(result.get(2).unwrap(), Value::Bool(true));
    assert_eq!(result.get(3).unwrap(), Value::Bool(false));
}

#[test]
fn test_not() {
    let s = Series::from_bools("a", vec![true, false, true]);
    let result = s.not().unwrap();
    assert_eq!(result.get(0).unwrap(), Value::Bool(false));
    assert_eq!(result.get(1).unwrap(), Value::Bool(true));
    assert_eq!(result.get(2).unwrap(), Value::Bool(false));
}

#[test]
fn test_length_mismatch() {
    let s1 = Series::from_ints("a", vec![1, 2, 3]);
    let s2 = Series::from_ints("b", vec![1, 2]);
    assert!(s1.add(&s2).is_err());
}

#[test]
fn test_type_mismatch_logical() {
    let s = Series::from_ints("a", vec![1, 2, 3]);
    assert!(s.not().is_err());
}

#[test]
fn comparison_names_nulls_and_orders() {
    let a = Series::from_optional_ints("a", vec![Some(1), None, Some(3)]);
    let b = Series::from_ints("b", vec![2, 2, 3]);
    let le = a.le(&b).unwrap();
    assert_eq!(le.name(), "a_le");
    assert_eq!(le.data_type(), SeriesType::Boolean);
    assert_eq!(le.to_values().unwrap(), vec![Value::Bool(true), Value::Null, Value::Bool(true)]);
    assert_eq!(a.ge(&b).unwrap().to_values().unwrap(), vec![Value::Bool(false), Value::Null, Value::Bool(true)]);
    assert_eq!(a.neq(&b).unwrap().name(), "a_neq");
    assert_eq!(a.gt(&b).unwrap().to_values().unwrap(), vec![Value::Bool(false), Value::Null, Value::Bool(false)]);

    let words = Series::from_strings("w", vec!["apple", "app", "banana"]);
    let before = words.lt_scalar(&text("apple")).unwrap();
    assert_eq!(before.to_values().unwrap(), vec![Value::Bool(false), Value::Bool(true), Value::Bool(false)]);
    assert_eq!(words.ge_scalar(&text("b")).unwrap().to_values().unwrap(), vec![Value::Bool(false), Value::Bool(false), Value::Bool(true)]);
    let flags = Series::from_bools("f", vec![false, true]);
    assert_eq!(flags.le_scalar(&Value::Bool(false)).unwrap().to_values().unwrap(), vec![Value::Bool(true), Value::Bool(false)]);
    assert_eq!(flags.neq_scalar(&Value::Bool(false)).unwrap().name(), "f_neq");
}

#[test]
fn comparison_errors() {
    let ints = Series::from_ints("a", vec![1, 2]);
    let words = Series::from_strings("w", vec!["x", "y"]);
    assert!(matches!(ints.eq(&words), Err(DataError::Arrow(_))));
    let err = ints.eq(&Series::from_ints("b", vec![1])).unwrap_err();
    assert_eq!(err.to_string(), "schema mismatch: Series length mismatch: 2 vs 1");
    let err = ints.lt_scalar(&text("x")).unwrap_err();
    assert_eq!(err.to_string(), "invalid operation: cannot compare Int64 Series with String");
    assert!(matches!(ints.eq_scalar(&Value::Null), Err(DataError::InvalidOperation(_))));
}

#[test]
fn logic_nulls_and_errors() {
    let a = Series::from_values("a", &[Value::Bool(true), Value::Null, Value::Bool(false)]).unwrap();
    let b = Series::from_bools("b", vec![true, true, true]);
    let and = a.and(&b).unwrap();
    assert_eq!(and.name(), "a_and");
    assert_eq!(and.to_values().unwrap(), vec![Value::Bool(true), Value::Null, Value::Bool(false)]);
    assert_eq!(a.or(&b).unwrap().name(), "a_or");
    assert_eq!(a.not().unwrap().to_values().unwrap(), vec![Value::Bool(false), Value::Null, Value::Bool(true)]);
    let ints = Series::from_ints("n", vec![1, 2, 3]);
    let err = b.and(&ints).unwrap_err();
    assert_eq!(err.to_string(), "type mismatch: expected Boolean, found Int64");
    assert!(matches!(b.or(&Series::from_bools("c", vec![true])), Err(DataError::SchemaMismatch(_))));
}

#[test]
fn arithmetic_nulls_division_and_errors() {
    let a = Series::from_optional_ints("a", vec![Some(7), None, Some(-7)]);
    let b = Series::from_ints("b", vec![2, 0, 2]);
    let q = a.div(&b).unwrap();
    assert_eq!(q.name(), "a");
    assert_eq!(q.to_values().unwrap(), vec![Value::Int(3), Value::Null, Value::Int(-3)]);
    assert_eq!(a.div_scalar(&Value::Int(-2)).unwrap().to_values().unwrap(), vec![Value::Int(-3), Value::Null, Value::Int(3)]);
    assert!(matches!(b.div_scalar(&Value::Int(0)), Err(DataError::Arrow(_))));
    assert!(matches!(Series::from_ints("m", vec![i64::MAX]).add_scalar(&Value::Int(1)), Err(DataError::Arrow(_))));
    assert!(matches!(Series::from_ints("m", vec![i64::MIN]).neg(), Err(DataError::Arrow(_))));
    assert_eq!(a.sub_scalar(&Value::Int(1)).unwrap().to_values().unwrap(), vec![Value::Int(6), Value::Null, Value::Int(-8)]);
    assert_eq!(a.mul_scalar(&Value::Int(3)).unwrap().to_values().unwrap(), vec![Value::Int(21), Value::Null, Value::Int(-21)]);

    let words = Series::from_strings("w", vec!["x", "y", "z"]);
    let err = a.add(&words).unwrap_err();
    assert_eq!(err.to_string(), "type mismatch: expected numeric type, found Int64 and Utf8");
    let err = a.add_scalar(&text("x")).unwrap_err();
    assert_eq!(err.to_string(), "invalid operation: cannot add String to Int64 Series");
    let err = words.sub_scalar(&Value::Int(1)).unwrap_err();
    assert_eq!(err.to_string(), "invalid operation: cannot subtract Int from Utf8 Series");
    let err = words.mul_scalar(&Value::Int(1)).unwrap_err();
    assert_eq!(err.to_string(), "invalid operation: cannot multiply Utf8 Series by Int");
    let err = words.div_scalar(&Value::Bool(true)).unwrap_err();
    assert_eq!(err.to_string(), "invalid operation: cannot divide Utf8 Series by Bool");
    assert!(matches!(words.neg(), Err(DataError::Arrow(_))));
}
