//! Scalar values as the data layer keys, groups and joins on them.

use vstd::prelude::*;

use crate::text::str_eq;

verus! {

/// A scalar cell value of the kinds that can key a group or a join:
/// null, booleans, integers and strings.
#[derive(Debug, Clone, PartialEq)]
pub enum Value {
    /// The missing value
    Null,
    /// A boolean
    Bool(bool),
    /// A 64-bit integer
    Int(i64),
    /// A string
    String(String),
}

/// The content of a [`Value`].
pub enum ValueModel {
    Null,
    Bool(bool),
    Int(i64),
    Str(Seq<char>),
}

impl View for Value {
    type V = ValueModel;

    open spec fn view(&self) -> ValueModel {
        match self {
            Value::Null => ValueModel::Null,
            Value::Bool(b) => ValueModel::Bool(*b),
            Value::Int(i) => ValueModel::Int(*i),
            Value::String(s) => ValueModel::Str(s@),
        }
    }
}

/// The contents of a sequence of values.
pub open spec fn value_views(v: Seq<Value>) -> Seq<ValueModel> {
    v.map_values(|x: Value| x@)
}

/// Whether two values are the same: same kind and same content. Nulls are
/// the same as each other.
pub fn same_value(a: &Value, b: &Value) -> (r: bool)
    ensures
        r == (a@ == b@),
{
    match (a, b) {
        (Value::Null, Value::Null) => true,
        (Value::Bool(x), Value::Bool(y)) => *x == *y,
        (Value::Int(x), Value::Int(y)) => *x == *y,
        (Value::String(x), Value::String(y)) => str_eq(x.as_str(), y.as_str()),
        _ => false,
    }
}

/// A copy of a value.
pub fn copy_value(v: &Value) -> (r: Value)
    ensures
        r@ == v@,
{
    match v {
        Value::Null => Value::Null,
        Value::Bool(b) => Value::Bool(*b),
        Value::Int(i) => Value::Int(*i),
        Value::String(s) => Value::String(s.clone()),
    }
}

} // verus!
