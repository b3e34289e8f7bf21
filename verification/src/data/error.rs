//! Error types for data operations

use vstd::prelude::*;

use crate::fmt::{dec, push_dec};

verus! {

/// Errors that can occur during data operations
#[derive(Debug, Clone)]
pub enum DataError {
    /// Arrow error (from arrow-rs)
    Arrow(String),
    /// Column not found in DataFrame
    ColumnNotFound(String),
    /// Invalid column index
    InvalidColumnIndex(usize),
    /// Type mismatch during operation
    TypeMismatch { expected: String, found: String },
    /// Invalid operation for the data type
    InvalidOperation(String),
    /// I/O error (file read/write)
    Io(String),
    /// Schema mismatch
    SchemaMismatch(String),
    /// Empty DataFrame where data was expected
    EmptyData,
    /// Parquet error
    Parquet(String),
    /// CSV error
    Csv(String),
    /// JSON error
    Json(String),
    /// Index out of bounds
    OutOfBounds { index: usize, length: usize },
    /// SQL/DataFusion error
    Sql(String),
    /// OLAP Cube error
    Cube(String),
}

/// The message of an error.
pub open spec fn error_message(e: DataError) -> Seq<char> {
    match e {
        DataError::Arrow(msg) => "Arrow error: "@ + msg@,
        DataError::ColumnNotFound(name) => "column not found: "@ + name@,
        DataError::InvalidColumnIndex(idx) => "invalid column index: "@ + dec(idx as nat),
        DataError::TypeMismatch { expected, found } => "type mismatch: expected "@ + expected@
            + ", found "@ + found@,
        DataError::InvalidOperation(msg) => "invalid operation: "@ + msg@,
        DataError::Io(msg) => "I/O error: "@ + msg@,
        DataError::SchemaMismatch(msg) => "schema mismatch: "@ + msg@,
        DataError::EmptyData => "empty DataFrame"@,
        DataError::Parquet(msg) => "Parquet error: "@ + msg@,
        DataError::Csv(msg) => "CSV error: "@ + msg@,
        DataError::Json(msg) => "JSON error: "@ + msg@,
        DataError::OutOfBounds { index, length } => "index "@ + dec(index as nat)
            + " out of bounds for length "@ + dec(length as nat),
        DataError::Sql(msg) => "SQL error: "@ + msg@,
        DataError::Cube(msg) => "Cube error: "@ + msg@,
    }
}

/// `prefix` followed by `msg`.
fn prefixed(prefix: &str, msg: &String) -> (r: String)
    ensures
        r@ == prefix@ + msg@,
{
    let mut out = String::new();
    out.append(prefix);
    out.append(msg.as_str());
    out
}

impl DataError {
    /// The error message.
    pub fn to_string(&self) -> (r: String)
        ensures
            r@ == error_message(*self),
    {
        match self {
            DataError::Arrow(msg) => prefixed("Arrow error: ", msg),
            DataError::ColumnNotFound(name) => prefixed("column not found: ", name),
            DataError::InvalidColumnIndex(idx) => {
                let mut out = String::new();
                out.append("invalid column index: ");
                push_dec(&mut out, *idx as u128);
                out
            },
            DataError::TypeMismatch { expected, found } => {
                let mut out = prefixed("type mismatch: expected ", expected);
                out.append(", found ");
                out.append(found.as_str());
                out
            },
            DataError::InvalidOperation(msg) => prefixed("invalid operation: ", msg),
            DataError::Io(msg) => prefixed("I/O error: ", msg),
            DataError::SchemaMismatch(msg) => prefixed("schema mismatch: ", msg),
            DataError::EmptyData => {
                let mut out = String::new();
                out.append("empty DataFrame");
                out
            },
            DataError::Parquet(msg) => prefixed("Parquet error: ", msg),
            DataError::Csv(msg) => prefixed("CSV error: ", msg),
            DataError::Json(msg) => prefixed("JSON error: ", msg),
            DataError::OutOfBounds { index, length } => {
                let mut out = String::new();
                out.append("index ");
                push_dec(&mut out, *index as u128);
                out.append(" out of bounds for length ");
                push_dec(&mut out, *length as u128);
                out
            },
            DataError::Sql(msg) => prefixed("SQL error: ", msg),
            DataError::Cube(msg) => prefixed("Cube error: ", msg),
        }
    }
}

} // verus!
