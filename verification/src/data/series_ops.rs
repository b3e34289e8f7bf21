//! Element-wise comparison, logic and integer arithmetic on columns.

use vstd::prelude::*;

use super::error::DataError;
use super::series::{fits, kind_name, kind_name_exec, type_debug, type_debug_exec, Series, SeriesType};
use super::value::{same_value, value_views, Value, ValueModel};
use crate::fmt::{dec, push_dec, push_int};
use crate::text::{chars_of, copy_str, lex_le, lex_le_exec, str_eq};

verus! {

/// The element-wise comparisons.
#[derive(Clone, Copy, PartialEq, Eq, Structural)]
pub enum Comparison {
    Eq,
    Neq,
    Lt,
    Le,
    Gt,
    Ge,
}

/// The element-wise integer operations.
#[derive(Clone, Copy, PartialEq, Eq, Structural)]
pub enum Arith {
    Add,
    Sub,
    Mul,
    Div,
}

/// Whether `a` comes before `b`: integers by value, `false` before `true`,
/// strings by code points; values of different kinds are not ordered.
pub open spec fn before(a: ValueModel, b: ValueModel) -> bool {
    match (a, b) {
        (ValueModel::Int(x), ValueModel::Int(y)) => x < y,
        (ValueModel::Bool(x), ValueModel::Bool(y)) => !x && y,
        (ValueModel::Str(x), ValueModel::Str(y)) => lex_le(x, y) && x != y,
        _ => false,
    }
}

/// Two cells compared: missing where either is missing.
pub open spec fn compared(op: Comparison, a: ValueModel, b: ValueModel) -> ValueModel {
    if a is Null || b is Null {
        ValueModel::Null
    } else {
        ValueModel::Bool(
            match op {
                Comparison::Eq => a == b,
                Comparison::Neq => a != b,
                Comparison::Lt => before(a, b),
                Comparison::Le => before(a, b) || a == b,
                Comparison::Gt => before(b, a),
                Comparison::Ge => before(b, a) || a == b,
            },
        )
    }
}

/// What a comparison appends to the column's name.
pub open spec fn comparison_suffix(op: Comparison) -> Seq<char> {
    match op {
        Comparison::Eq => "_eq"@,
        Comparison::Neq => "_neq"@,
        Comparison::Lt => "_lt"@,
        Comparison::Le => "_le"@,
        Comparison::Gt => "_gt"@,
        Comparison::Ge => "_ge"@,
    }
}

/// The message for two columns of different lengths.
pub open spec fn length_message(a: nat, b: nat) -> Seq<char> {
    "Series length mismatch: "@ + dec(a) + " vs "@ + dec(b)
}

/// What comparing column `a` with column `b` gives: `SchemaMismatch` for
/// different lengths; an `Arrow` error for different types (its message is
/// left unstated); else a boolean column named after `a` with the suffix
/// of the comparison.
pub open spec fn compare_outcome(a: Series, b: Series, op: Comparison, r: Result<Series, DataError>) -> bool {
    if a.cells().len() != b.cells().len() {
        r matches Err(DataError::SchemaMismatch(m)) && m@ == length_message(a.cells().len(), b.cells().len())
    } else if a.kind() != b.kind() {
        r matches Err(DataError::Arrow(_))
    } else {
        r matches Ok(s) && s.name_view() == a.name_view() + comparison_suffix(op) && s.kind() == SeriesType::Boolean
            && s.cells() == Seq::new(a.cells().len(), |i: int| compared(op, a.cells()[i], b.cells()[i]))
    }
}

/// Whether a value can be compared with, or combined with, a column of
/// type `t`: a value of the column's own kind.
pub open spec fn scalar_fits(t: SeriesType, v: ValueModel) -> bool {
    match (t, v) {
        (SeriesType::Int64, ValueModel::Int(_)) => true,
        (SeriesType::Boolean, ValueModel::Bool(_)) => true,
        (SeriesType::Utf8, ValueModel::Str(_)) => true,
        _ => false,
    }
}

/// What comparing column `a` with the value `v` gives: `InvalidOperation`
/// for a value the column's type cannot be compared with; else a boolean
/// column named after `a` with the suffix of the comparison.
pub open spec fn compare_scalar_outcome(a: Series, v: ValueModel, op: Comparison, r: Result<Series, DataError>) -> bool {
    if !scalar_fits(a.kind(), v) {
        r matches Err(DataError::InvalidOperation(m)) && m@ == "cannot compare "@ + type_debug(a.kind()) + " Series with "@
            + kind_name(v)
    } else {
        r matches Ok(s) && s.name_view() == a.name_view() + comparison_suffix(op) && s.kind() == SeriesType::Boolean
            && s.cells() == Seq::new(a.cells().len(), |i: int| compared(op, a.cells()[i], v))
    }
}

/// Two cells combined by `and` (or `or`): missing where either is missing.
pub open spec fn logic_cell(and: bool, a: ValueModel, b: ValueModel) -> ValueModel {
    match (a, b) {
        (ValueModel::Bool(x), ValueModel::Bool(y)) => ValueModel::Bool(
            if and {
                x && y
            } else {
                x || y
            },
        ),
        _ => ValueModel::Null,
    }
}

/// What combining column `a` with column `b` by `and` (or `or`) gives:
/// `SchemaMismatch` for different lengths, `TypeMismatch` for a column that
/// is not boolean (the first first), else a boolean column named after `a`
/// with `_and` (or `_or`).
pub open spec fn logic_outcome(a: Series, b: Series, and: bool, r: Result<Series, DataError>) -> bool {
    if a.cells().len() != b.cells().len() {
        r matches Err(DataError::SchemaMismatch(m)) && m@ == length_message(a.cells().len(), b.cells().len())
    } else if a.kind() != SeriesType::Boolean {
        r matches Err(DataError::TypeMismatch { expected, found }) && expected@ == "Boolean"@ && found@ == type_debug(
            a.kind(),
        )
    } else if b.kind() != SeriesType::Boolean {
        r matches Err(DataError::TypeMismatch { expected, found }) && expected@ == "Boolean"@ && found@ == type_debug(
            b.kind(),
        )
    } else {
        r matches Ok(s) && s.name_view() == a.name_view() + if and {
            "_and"@
        } else {
            "_or"@
        } && s.kind() == SeriesType::Boolean && s.cells() == Seq::new(
            a.cells().len(),
            |i: int| logic_cell(and, a.cells()[i], b.cells()[i]),
        )
    }
}

/// The integer operation on two integers, or `None` where it overflows or
/// divides by zero (division truncates toward zero).
pub open spec fn int_result(op: Arith, x: i64, y: i64) -> Option<i64> {
    match op {
        Arith::Add => x.checked_add(y),
        Arith::Sub => x.checked_sub(y),
        Arith::Mul => x.checked_mul(y),
        Arith::Div => x.checked_div(y),
    }
}

/// Two cells combined by an integer operation: missing where either is
/// missing; `None` where the operation fails.
pub open spec fn arith_cell(op: Arith, a: ValueModel, b: ValueModel) -> Option<ValueModel> {
    match (a, b) {
        (ValueModel::Int(x), ValueModel::Int(y)) => match int_result(op, x, y) {
            Some(z) => Some(ValueModel::Int(z)),
            None => None,
        },
        _ => Some(ValueModel::Null),
    }
}

/// Whether the operation fails on some pair of cells.
pub open spec fn arith_fails(op: Arith, a: Seq<ValueModel>, b: Seq<ValueModel>) -> bool {
    exists|i: int| 0 <= i < a.len() && #[trigger] arith_cell(op, a[i], b[i]) is None
}

/// The cells combined by the operation where it fails on none.
pub open spec fn arith_cells(op: Arith, a: Seq<ValueModel>, b: Seq<ValueModel>) -> Seq<ValueModel> {
    Seq::new(a.len(), |i: int| arith_cell(op, a[i], b[i])->0)
}

/// What combining column `a` with column `b` by an integer operation
/// gives: `SchemaMismatch` for different lengths, `TypeMismatch` unless
/// both are integer columns, an `Arrow` error where the operation
/// overflows or divides by zero (its message is left unstated), else an
/// integer column named as `a`.
pub open spec fn arith_outcome(a: Series, b: Series, op: Arith, r: Result<Series, DataError>) -> bool {
    if a.cells().len() != b.cells().len() {
        r matches Err(DataError::SchemaMismatch(m)) && m@ == length_message(a.cells().len(), b.cells().len())
    } else if a.kind() != SeriesType::Int64 || b.kind() != SeriesType::Int64 {
        r matches Err(DataError::TypeMismatch { expected, found }) && expected@ == "numeric type"@ && found@ == type_debug(
            a.kind(),
        ) + " and "@ + type_debug(b.kind())
    } else if arith_fails(op, a.cells(), b.cells()) {
        r matches Err(DataError::Arrow(_))
    } else {
        r matches Ok(s) && s.name_view() == a.name_view() && s.kind() == SeriesType::Int64 && s.cells() == arith_cells(
            op,
            a.cells(),
            b.cells(),
        )
    }
}

/// The message for a value an integer operation cannot take.
pub open spec fn scalar_arith_message(op: Arith, t: SeriesType, v: ValueModel) -> Seq<char> {
    match op {
        Arith::Add => "cannot add "@ + kind_name(v) + " to "@ + type_debug(t) + " Series"@,
        Arith::Sub => "cannot subtract "@ + kind_name(v) + " from "@ + type_debug(t) + " Series"@,
        Arith::Mul => "cannot multiply "@ + type_debug(t) + " Series by "@ + kind_name(v),
        Arith::Div => "cannot divide "@ + type_debug(t) + " Series by "@ + kind_name(v),
    }
}

/// What combining column `a` with the value `v` by an integer operation
/// gives: `InvalidOperation` unless both are integers, an `Arrow` error
/// where the operation overflows or divides by zero, else an integer column
/// named as `a`.
pub open spec fn arith_scalar_outcome(a: Series, v: ValueModel, op: Arith, r: Result<Series, DataError>) -> bool {
    let vs = Seq::new(a.cells().len(), |i: int| v);
    if !(a.kind() == SeriesType::Int64 && v is Int) {
        r matches Err(DataError::InvalidOperation(m)) && m@ == scalar_arith_message(op, a.kind(), v)
    } else if arith_fails(op, a.cells(), vs) {
        r matches Err(DataError::Arrow(_))
    } else {
        r matches Ok(s) && s.name_view() == a.name_view() && s.kind() == SeriesType::Int64 && s.cells() == arith_cells(
            op,
            a.cells(),
            vs,
        )
    }
}

/// Two values compared.
fn compare_values(op: Comparison, a: &Value, b: &Value) -> (r: Value)
    ensures
        r@ == compared(op, a@, b@),
{
    if matches!(a, Value::Null) || matches!(b, Value::Null) {
        return Value::Null;
    }
    let equal = same_value(a, b);
    let a_first = value_before(a, b);
    let b_first = value_before(b, a);
    let out = match op {
        Comparison::Eq => equal,
        Comparison::Neq => !equal,
        Comparison::Lt => a_first,
        Comparison::Le => a_first || equal,
        Comparison::Gt => b_first,
        Comparison::Ge => b_first || equal,
    };
    Value::Bool(out)
}

/// Whether `a` comes before `b`.
pub(crate) fn value_before(a: &Value, b: &Value) -> (r: bool)
    ensures
        r == before(a@, b@),
{
    match (a, b) {
        (Value::Int(x), Value::Int(y)) => *x < *y,
        (Value::Bool(x), Value::Bool(y)) => !*x && *y,
        (Value::String(x), Value::String(y)) => {
            let cx = chars_of(x.as_str());
            let cy = chars_of(y.as_str());
            lex_le_exec(&cx, &cy) && !str_eq(x.as_str(), y.as_str())
        },
        _ => false,
    }
}

/// The message for columns of different lengths.
fn length_message_exec(a: usize, b: usize) -> (m: String)
    ensures
        m@ == length_message(a as nat, b as nat),
{
    let mut m = copy_str("Series length mismatch: ");
    push_dec(&mut m, a as u128);
    m.append(" vs ");
    push_dec(&mut m, b as u128);
    m
}

/// The operator a comparison is written with.
pub open spec fn comparison_symbol(op: Comparison) -> Seq<char> {
    match op {
        Comparison::Eq => "=="@,
        Comparison::Neq => "!="@,
        Comparison::Lt => "<"@,
        Comparison::Le => "<="@,
        Comparison::Gt => ">"@,
        Comparison::Ge => ">="@,
    }
}

/// The text of a comparison operator.
fn operator_text(op: Comparison) -> (r: &'static str)
    ensures
        r@ == comparison_symbol(op),
{
    match op {
        Comparison::Eq => "==",
        Comparison::Neq => "!=",
        Comparison::Lt => "<",
        Comparison::Le => "<=",
        Comparison::Gt => ">",
        Comparison::Ge => ">=",
    }
}

/// The suffix of a comparison.
fn suffix_exec(op: Comparison) -> (r: &'static str)
    ensures
        r@ == comparison_suffix(op),
{
    match op {
        Comparison::Eq => "_eq",
        Comparison::Neq => "_neq",
        Comparison::Lt => "_lt",
        Comparison::Le => "_le",
        Comparison::Gt => "_gt",
        Comparison::Ge => "_ge",
    }
}

/// The name of `s` with a suffix.
fn suffixed(s: &Series, suffix: &str) -> (r: String)
    ensures
        r@ == s.name_view() + suffix@,
{
    let mut n = s.name_string();
    n.append(suffix);
    n
}

/// The values of `a` compared with those of `b`, or with `v` where `b` is
/// `None`.
fn compare_cells(a: &Vec<Value>, b: Option<&Vec<Value>>, v: &Value, op: Comparison) -> (r: Vec<Value>)
    requires
        b matches Some(bv) ==> bv@.len() == a@.len(),
    ensures
        r@.len() == a@.len(),
        forall|i: int| 0 <= i < r@.len() ==> fits(SeriesType::Boolean, #[trigger] r@[i]@),
        forall|i: int|
            0 <= i < r@.len() ==> (#[trigger] r@[i])@ == compared(
                op,
                a@[i]@,
                match b {
                    Some(bv) => bv@[i]@,
                    None => v@,
                },
            ),
{
    let mut out: Vec<Value> = Vec::new();
    let mut i: usize = 0;
    while i < a.len()
        invariant
            i <= a@.len(),
            b matches Some(bv) ==> bv@.len() == a@.len(),
            out@.len() == i,
            forall|k: int| 0 <= k < i ==> fits(SeriesType::Boolean, #[trigger] out@[k]@),
            forall|k: int|
                0 <= k < i ==> (#[trigger] out@[k])@ == compared(
                    op,
                    a@[k]@,
                    match b {
                        Some(bv) => bv@[k]@,
                        None => v@,
                    },
                ),
        decreases a.len() - i,
    {
        let c = match b {
            Some(bv) => compare_values(op, &a[i], &bv[i]),
            None => compare_values(op, &a[i], v),
        };
        out.push(c);
        i = i + 1;
    }
    out
}

impl Series {
    /// This column compared element-wise with `other`; see
    /// [`compare_outcome`].
    fn compare_with(&self, other: &Series, op: Comparison) -> (r: Result<Series, DataError>)
        ensures
            compare_outcome(*self, *other, op, r),
    {
        let av = self.values_ref();
        let bv = other.values_ref();
        if av.len() != bv.len() {
            return Err(DataError::SchemaMismatch(length_message_exec(av.len(), bv.len())));
        }
        if self.data_type() != other.data_type() {
            let mut m = copy_str("Invalid argument error: Invalid comparison operation: ");
            m.append(type_debug_exec(self.data_type()).as_str());
            m.append(" ");
            m.append(operator_text(op));
            m.append(" ");
            m.append(type_debug_exec(other.data_type()).as_str());
            return Err(DataError::Arrow(m));
        }
        let out = compare_cells(av, Some(bv), &Value::Null, op);
        let s = Series::assemble(suffixed(self, suffix_exec(op)), SeriesType::Boolean, out);
        assert(s.cells() =~= Seq::new(self.cells().len(), |i: int| compared(op, self.cells()[i], other.cells()[i])));
        Ok(s)
    }

    /// This column compared element-wise with the value `value`; see
    /// [`compare_scalar_outcome`].
    fn compare_with_value(&self, value: &Value, op: Comparison) -> (r: Result<Series, DataError>)
        ensures
            compare_scalar_outcome(*self, value@, op, r),
    {
        let av = self.values_ref();
        let fits_value = match (self.data_type(), value) {
            (SeriesType::Int64, Value::Int(_)) => true,
            (SeriesType::Boolean, Value::Bool(_)) => true,
            (SeriesType::Utf8, Value::String(_)) => true,
            _ => false,
        };
        if !fits_value {
            let mut m = copy_str("cannot compare ");
            m.append(type_debug_exec(self.data_type()).as_str());
            m.append(" Series with ");
            m.append(kind_name_exec(value).as_str());
            return Err(DataError::InvalidOperation(m));
        }
        let out = compare_cells(av, None, value, op);
        let s = Series::assemble(suffixed(self, suffix_exec(op)), SeriesType::Boolean, out);
        assert(s.cells() =~= Seq::new(self.cells().len(), |i: int| compared(op, self.cells()[i], value@)));
        Ok(s)
    }

    /// Element-wise equality with `other`; missing where either is.
    pub fn eq(&self, other: &Series) -> (r: Result<Series, DataError>)
        ensures
            compare_outcome(*self, *other, Comparison::Eq, r),
    {
        self.compare_with(other, Comparison::Eq)
    }

    /// Element-wise equality with `value`.
    pub fn eq_scalar(&self, value: &Value) -> (r: Result<Series, DataError>)
        ensures
            compare_scalar_outcome(*self, value@, Comparison::Eq, r),
    {
        self.compare_with_value(value, Comparison::Eq)
    }

    /// Element-wise inequality with `other`.
    pub fn neq(&self, other: &Series) -> (r: Result<Series, DataError>)
        ensures
            compare_outcome(*self, *other, Comparison::Neq, r),
    {
        self.compare_with(other, Comparison::Neq)
    }

    /// Element-wise inequality with `value`.
    pub fn neq_scalar(&self, value: &Value) -> (r: Result<Series, DataError>)
        ensures
            compare_scalar_outcome(*self, value@, Comparison::Neq, r),
    {
        self.compare_with_value(value, Comparison::Neq)
    }

    /// Element-wise less-than with `other`.
    pub fn lt(&self, other: &Series) -> (r: Result<Series, DataError>)
        ensures
            compare_outcome(*self, *other, Comparison::Lt, r),
    {
        self.compare_with(other, Comparison::Lt)
    }

    /// Element-wise less-than with `value`.
    pub fn lt_scalar(&self, value: &Value) -> (r: Result<Series, DataError>)
        ensures
            compare_scalar_outcome(*self, value@, Comparison::Lt, r),
    {
        self.compare_with_value(value, Comparison::Lt)
    }

    /// Element-wise less-than-or-equal with `other`.
    pub fn le(&self, other: &Series) -> (r: Result<Series, DataError>)
        ensures
            compare_outcome(*self, *other, Comparison::Le, r),
    {
        self.compare_with(other, Comparison::Le)
    }

    /// Element-wise less-than-or-equal with `value`.
    pub fn le_scalar(&self, value: &Value) -> (r: Result<Series, DataError>)
        ensures
            compare_scalar_outcome(*self, value@, Comparison::Le, r),
    {
        self.compare_with_value(value, Comparison::Le)
    }

    /// Element-wise greater-than with `other`.
    pub fn gt(&self, other: &Series) -> (r: Result<Series, DataError>)
        ensures
            compare_outcome(*self, *other, Comparison::Gt, r),
    {
        self.compare_with(other, Comparison::Gt)
    }

    /// Element-wise greater-than with `value`.
    pub fn gt_scalar(&self, value: &Value) -> (r: Result<Series, DataError>)
        ensures
            compare_scalar_outcome(*self, value@, Comparison::Gt, r),
    {
        self.compare_with_value(value, Comparison::Gt)
    }

    /// Element-wise greater-than-or-equal with `other`.
    pub fn ge(&self, other: &Series) -> (r: Result<Series, DataError>)
        ensures
            compare_outcome(*self, *other, Comparison::Ge, r),
    {
        self.compare_with(other, Comparison::Ge)
    }

    /// Element-wise greater-than-or-equal with `value`.
    pub fn ge_scalar(&self, value: &Value) -> (r: Result<Series, DataError>)
        ensures
            compare_scalar_outcome(*self, value@, Comparison::Ge, r),
    {
        self.compare_with_value(value, Comparison::Ge)
    }
}


/// The right-hand value of a pair of cells: the cell of `b`, or `v`.
pub open spec fn rhs(b: Option<&Vec<Value>>, v: &Value, i: int) -> ValueModel {
    match b {
        Some(bv) => bv@[i]@,
        None => v@,
    }
}

/// The operator an integer operation is written with.
pub open spec fn arith_op_symbol(op: Arith) -> Seq<char> {
    match op {
        Arith::Add => "+"@,
        Arith::Sub => "-"@,
        Arith::Mul => "*"@,
        Arith::Div => "/"@,
    }
}

/// The symbol of an integer operation.
fn arith_symbol(op: Arith) -> (r: &'static str)
    ensures
        r@ == arith_op_symbol(op),
{
    match op {
        Arith::Add => "+",
        Arith::Sub => "-",
        Arith::Mul => "*",
        Arith::Div => "/",
    }
}

/// The integer operation on two integers, or the message of its failure.
fn int_op(op: Arith, x: i64, y: i64) -> (r: Result<i64, String>)
    ensures
        match r {
            Ok(z) => int_result(op, x, y) == Some(z),
            Err(_) => int_result(op, x, y) is None,
        },
{
    let out = match op {
        Arith::Add => x.checked_add(y),
        Arith::Sub => x.checked_sub(y),
        Arith::Mul => x.checked_mul(y),
        Arith::Div => x.checked_div(y),
    };
    match out {
        Some(z) => Ok(z),
        None => {
            if matches!(op, Arith::Div) && y == 0 {
                Err(copy_str("Divide by zero error"))
            } else {
                let mut m = copy_str("Arithmetic overflow: Overflow happened on: ");
                push_int(&mut m, x);
                m.append(" ");
                m.append(arith_symbol(op));
                m.append(" ");
                push_int(&mut m, y);
                Err(m)
            }
        },
    }
}

/// The values of `a` combined by the operation with those of `b`, or with
/// `v` where `b` is `None`; the message of the first failure otherwise.
fn arith_values(a: &Vec<Value>, b: Option<&Vec<Value>>, v: &Value, op: Arith) -> (r: Result<Vec<Value>, String>)
    requires
        b matches Some(bv) ==> bv@.len() == a@.len(),
    ensures
        match r {
            Ok(out) => out@.len() == a@.len() && (forall|i: int|
                0 <= i < out@.len() ==> #[trigger] arith_cell(op, a@[i]@, rhs(b, v, i)) is Some && out@[i]@ == arith_cell(
                    op,
                    a@[i]@,
                    rhs(b, v, i),
                )->0) && (forall|i: int| 0 <= i < out@.len() ==> fits(SeriesType::Int64, #[trigger] out@[i]@)),
            Err(_) => exists|i: int| 0 <= i < a@.len() && #[trigger] arith_cell(op, a@[i]@, rhs(b, v, i)) is None,
        },
{
    let mut out: Vec<Value> = Vec::new();
    let mut i: usize = 0;
    while i < a.len()
        invariant
            i <= a@.len(),
            b matches Some(bv) ==> bv@.len() == a@.len(),
            out@.len() == i,
            forall|k: int|
                0 <= k < i ==> #[trigger] arith_cell(op, a@[k]@, rhs(b, v, k)) is Some && out@[k]@ == arith_cell(
                    op,
                    a@[k]@,
                    rhs(b, v, k),
                )->0,
            forall|k: int| 0 <= k < i ==> fits(SeriesType::Int64, #[trigger] out@[k]@),
        decreases a.len() - i,
    {
        let right = match b {
            Some(bv) => &bv[i],
            None => v,
        };
        assert(right@ == rhs(b, v, i as int));
        let cell = match (&a[i], right) {
            (Value::Int(x), Value::Int(y)) => match int_op(op, *x, *y) {
                Ok(z) => Value::Int(z),
                Err(m) => {
                    assert(arith_cell(op, a@[i as int]@, rhs(b, v, i as int)) is None);
                    return Err(m);
                },
            },
            _ => Value::Null,
        };
        out.push(cell);
        i = i + 1;
    }
    Ok(out)
}

/// A column's cells are the views of its values.
proof fn lemma_cells(s: Series, vals: Seq<Value>, i: int)
    requires
        value_views(vals) == s.cells(),
        0 <= i < vals.len(),
    ensures
        s.cells()[i] == vals[i]@,
{
}

impl Series {
    /// This column combined element-wise with `other` by `and` (or `or`);
    /// see [`logic_outcome`].
    fn logic_with(&self, other: &Series, and: bool) -> (r: Result<Series, DataError>)
        ensures
            logic_outcome(*self, *other, and, r),
    {
        let av = self.values_ref();
        let bv = other.values_ref();
        if av.len() != bv.len() {
            return Err(DataError::SchemaMismatch(length_message_exec(av.len(), bv.len())));
        }
        if self.data_type() != SeriesType::Boolean {
            return Err(DataError::TypeMismatch { expected: copy_str("Boolean"), found: type_debug_exec(self.data_type()) });
        }
        if other.data_type() != SeriesType::Boolean {
            return Err(DataError::TypeMismatch { expected: copy_str("Boolean"), found: type_debug_exec(other.data_type()) });
        }
        let mut out: Vec<Value> = Vec::new();
        let mut i: usize = 0;
        while i < av.len()
            invariant
                i <= av@.len(),
                av@.len() == bv@.len(),
                out@.len() == i,
                forall|k: int| 0 <= k < i ==> fits(SeriesType::Boolean, #[trigger] out@[k]@),
                forall|k: int| 0 <= k < i ==> (#[trigger] out@[k])@ == logic_cell(and, av@[k]@, bv@[k]@),
            decreases av.len() - i,
        {
            let cell = match (&av[i], &bv[i]) {
                (Value::Bool(x), Value::Bool(y)) => Value::Bool(
                    if and {
                        *x && *y
                    } else {
                        *x || *y
                    },
                ),
                _ => Value::Null,
            };
            out.push(cell);
            i = i + 1;
        }
        let suffix = if and {
            "_and"
        } else {
            "_or"
        };
        let s = Series::assemble(suffixed(self, suffix), SeriesType::Boolean, out);
        assert(s.cells() =~= Seq::new(self.cells().len(), |i: int| logic_cell(and, self.cells()[i], other.cells()[i])));
        Ok(s)
    }

    /// Element-wise `and` of two boolean columns: missing where either is.
    pub fn and(&self, other: &Series) -> (r: Result<Series, DataError>)
        ensures
            logic_outcome(*self, *other, true, r),
    {
        self.logic_with(other, true)
    }

    /// Element-wise `or` of two boolean columns: missing where either is.
    pub fn or(&self, other: &Series) -> (r: Result<Series, DataError>)
        ensures
            logic_outcome(*self, *other, false, r),
    {
        self.logic_with(other, false)
    }

    /// Element-wise negation of a boolean column, named with `_not`;
    /// `TypeMismatch` for a column that is not boolean.
    pub fn not(&self) -> (r: Result<Series, DataError>)
        ensures
            self.kind() != SeriesType::Boolean ==> (r matches Err(DataError::TypeMismatch { expected, found })
                && expected@ == "Boolean"@ && found@ == type_debug(self.kind())),
            self.kind() == SeriesType::Boolean ==> (r matches Ok(s) && s.name_view() == self.name_view() + "_not"@
                && s.kind() == SeriesType::Boolean && s.cells() == Seq::new(
                self.cells().len(),
                |i: int|
                    match self.cells()[i] {
                        ValueModel::Bool(x) => ValueModel::Bool(!x),
                        _ => ValueModel::Null,
                    },
            )),
    {
        if self.data_type() != SeriesType::Boolean {
            return Err(DataError::TypeMismatch { expected: copy_str("Boolean"), found: type_debug_exec(self.data_type()) });
        }
        let av = self.values_ref();
        let mut out: Vec<Value> = Vec::new();
        let mut i: usize = 0;
        while i < av.len()
            invariant
                i <= av@.len(),
                out@.len() == i,
                forall|k: int| 0 <= k < i ==> fits(SeriesType::Boolean, #[trigger] out@[k]@),
                forall|k: int|
                    0 <= k < i ==> (#[trigger] out@[k])@ == match av@[k]@ {
                        ValueModel::Bool(x) => ValueModel::Bool(!x),
                        _ => ValueModel::Null,
                    },
            decreases av.len() - i,
        {
            let cell = match &av[i] {
                Value::Bool(x) => Value::Bool(!*x),
                _ => Value::Null,
            };
            out.push(cell);
            i = i + 1;
        }
        let s = Series::assemble(suffixed(self, "_not"), SeriesType::Boolean, out);
        assert(s.cells() =~= Seq::new(
            self.cells().len(),
            |i: int|
                match self.cells()[i] {
                    ValueModel::Bool(x) => ValueModel::Bool(!x),
                    _ => ValueModel::Null,
                },
        ));
        Ok(s)
    }

    /// This column combined element-wise with `other` by an integer
    /// operation; see [`arith_outcome`].
    fn arith_with(&self, other: &Series, op: Arith) -> (r: Result<Series, DataError>)
        ensures
            arith_outcome(*self, *other, op, r),
    {
        let av = self.values_ref();
        let bv = other.values_ref();
        if av.len() != bv.len() {
            return Err(DataError::SchemaMismatch(length_message_exec(av.len(), bv.len())));
        }
        if self.data_type() != SeriesType::Int64 || other.data_type() != SeriesType::Int64 {
            let mut found = type_debug_exec(self.data_type());
            found.append(" and ");
            found.append(type_debug_exec(other.data_type()).as_str());
            return Err(DataError::TypeMismatch { expected: copy_str("numeric type"), found });
        }
        let ghost ac = self.cells();
        let ghost bc = other.cells();
        match arith_values(av, Some(bv), &Value::Null, op) {
            Ok(out) => {
                proof {
                    assert forall|i: int| 0 <= i < ac.len() implies #[trigger] arith_cell(op, ac[i], bc[i]) is Some by {
                        assert(arith_cell(op, av@[i]@, rhs(Some(bv), &Value::Null, i)) is Some);
                    }
                }
                let s = Series::assemble(self.name_string(), SeriesType::Int64, out);
                assert(s.cells() =~= arith_cells(op, ac, bc)) by {
                    assert forall|i: int| 0 <= i < ac.len() implies #[trigger] s.cells()[i] == arith_cells(op, ac, bc)[i] by {
                        assert(arith_cell(op, av@[i]@, rhs(Some(bv), &Value::Null, i)) is Some);
                    }
                }
                Ok(s)
            },
            Err(m) => {
                proof {
                    let i = choose|i: int| 0 <= i < av@.len() && #[trigger] arith_cell(op, av@[i]@, rhs(Some(bv), &Value::Null, i)) is None;
                    assert(arith_cell(op, ac[i], bc[i]) is None);
                }
                Err(DataError::Arrow(m))
            },
        }
    }

    /// This column combined element-wise with `value` by an integer
    /// operation; see [`arith_scalar_outcome`].
    fn arith_with_value(&self, value: &Value, op: Arith) -> (r: Result<Series, DataError>)
        ensures
            arith_scalar_outcome(*self, value@, op, r),
    {
        let av = self.values_ref();
        let ok = match value {
            Value::Int(_) => self.data_type() == SeriesType::Int64,
            _ => false,
        };
        if !ok {
            let kind = kind_name_exec(value);
            let t = type_debug_exec(self.data_type());
            let mut m = String::new();
            match op {
                Arith::Add => {
                    m.append("cannot add ");
                    m.append(kind.as_str());
                    m.append(" to ");
                    m.append(t.as_str());
                    m.append(" Series");
                },
                Arith::Sub => {
                    m.append("cannot subtract ");
                    m.append(kind.as_str());
                    m.append(" from ");
                    m.append(t.as_str());
                    m.append(" Series");
                },
                Arith::Mul => {
                    m.append("cannot multiply ");
                    m.append(t.as_str());
                    m.append(" Series by ");
                    m.append(kind.as_str());
                },
                Arith::Div => {
                    m.append("cannot divide ");
                    m.append(t.as_str());
                    m.append(" Series by ");
                    m.append(kind.as_str());
                },
            }
            assert(m@ =~= scalar_arith_message(op, self.kind(), value@));
            return Err(DataError::InvalidOperation(m));
        }
        let ghost ac = self.cells();
        let ghost vs = Seq::new(ac.len(), |i: int| value@);
        match arith_values(av, None, value, op) {
            Ok(out) => {
                proof {
                    assert forall|i: int| 0 <= i < ac.len() implies #[trigger] arith_cell(op, ac[i], vs[i]) is Some by {
                        assert(arith_cell(op, av@[i]@, rhs(None, value, i)) is Some);
                    }
                }
                let s = Series::assemble(self.name_string(), SeriesType::Int64, out);
                assert(s.cells() =~= arith_cells(op, ac, vs)) by {
                    assert forall|i: int| 0 <= i < ac.len() implies #[trigger] s.cells()[i] == arith_cells(op, ac, vs)[i] by {
                        assert(arith_cell(op, av@[i]@, rhs(None, value, i)) is Some);
                    }
                }
                Ok(s)
            },
            Err(m) => {
                proof {
                    let i = choose|i: int| 0 <= i < av@.len() && #[trigger] arith_cell(op, av@[i]@, rhs(None, value, i)) is None;
                    assert(arith_cell(op, ac[i], vs[i]) is None);
                }
                Err(DataError::Arrow(m))
            },
        }
    }

    /// Element-wise sum with `other`, as integers.
    pub fn add(&self, other: &Series) -> (r: Result<Series, DataError>)
        ensures
            arith_outcome(*self, *other, Arith::Add, r),
    {
        self.arith_with(other, Arith::Add)
    }

    /// `value` added to every element.
    pub fn add_scalar(&self, value: &Value) -> (r: Result<Series, DataError>)
        ensures
            arith_scalar_outcome(*self, value@, Arith::Add, r),
    {
        self.arith_with_value(value, Arith::Add)
    }

    /// Element-wise difference with `other`, as integers.
    pub fn sub(&self, other: &Series) -> (r: Result<Series, DataError>)
        ensures
            arith_outcome(*self, *other, Arith::Sub, r),
    {
        self.arith_with(other, Arith::Sub)
    }

    /// `value` subtracted from every element.
    pub fn sub_scalar(&self, value: &Value) -> (r: Result<Series, DataError>)
        ensures
            arith_scalar_outcome(*self, value@, Arith::Sub, r),
    {
        self.arith_with_value(value, Arith::Sub)
    }

    /// Element-wise product with `other`, as integers.
    pub fn mul(&self, other: &Series) -> (r: Result<Series, DataError>)
        ensures
            arith_outcome(*self, *other, Arith::Mul, r),
    {
        self.arith_with(other, Arith::Mul)
    }

    /// Every element multiplied by `value`.
    pub fn mul_scalar(&self, value: &Value) -> (r: Result<Series, DataError>)
        ensures
            arith_scalar_outcome(*self, value@, Arith::Mul, r),
    {
        self.arith_with_value(value, Arith::Mul)
    }

    /// Element-wise quotient by `other`, as integers truncated toward zero.
    pub fn div(&self, other: &Series) -> (r: Result<Series, DataError>)
        ensures
            arith_outcome(*self, *other, Arith::Div, r),
    {
        self.arith_with(other, Arith::Div)
    }

    /// Every element divided by `value`, truncated toward zero.
    pub fn div_scalar(&self, value: &Value) -> (r: Result<Series, DataError>)
        ensures
            arith_scalar_outcome(*self, value@, Arith::Div, r),
    {
        self.arith_with_value(value, Arith::Div)
    }

    /// Every element negated; an `Arrow` error for a column that is not of
    /// integers or an element that has no negation (its message is left
    /// unstated).
    pub fn neg(&self) -> (r: Result<Series, DataError>)
        ensures
            self.kind() != SeriesType::Int64 ==> r matches Err(DataError::Arrow(_)),
            self.kind() == SeriesType::Int64 && self.cells().contains(ValueModel::Int(i64::MIN)) ==> r matches Err(
                DataError::Arrow(_),
            ),
            self.kind() == SeriesType::Int64 && !self.cells().contains(ValueModel::Int(i64::MIN)) ==> (r matches Ok(s)
                && s.name_view() == self.name_view() && s.kind() == SeriesType::Int64 && s.cells() == Seq::new(
                self.cells().len(),
                |i: int|
                    match self.cells()[i] {
                        ValueModel::Int(x) => ValueModel::Int((-x) as i64),
                        _ => ValueModel::Null,
                    },
            )),
    {
        if self.data_type() != SeriesType::Int64 {
            let mut m = copy_str("Invalid argument error: Invalid arithmetic operation: -");
            m.append(type_debug_exec(self.data_type()).as_str());
            return Err(DataError::Arrow(m));
        }
        let av = self.values_ref();
        let mut out: Vec<Value> = Vec::new();
        let mut i: usize = 0;
        while i < av.len()
            invariant
                i <= av@.len(),
                value_views(av@) == self.cells(),
                out@.len() == i,
                forall|k: int| 0 <= k < i ==> av@[k]@ != ValueModel::Int(i64::MIN),
                forall|k: int| 0 <= k < i ==> fits(SeriesType::Int64, #[trigger] out@[k]@),
                forall|k: int|
                    0 <= k < i ==> (#[trigger] out@[k])@ == match av@[k]@ {
                        ValueModel::Int(x) => ValueModel::Int((-x) as i64),
                        _ => ValueModel::Null,
                    },
            decreases av.len() - i,
        {
            let cell = match &av[i] {
                Value::Int(x) => {
                    if *x == i64::MIN {
                        proof {
                            assert(self.cells()[i as int] == av@[i as int]@);
                            assert(self.cells().contains(ValueModel::Int(i64::MIN)));
                        }
                        let mut m = copy_str("Arithmetic overflow: Overflow happened on: - ");
                        push_int(&mut m, *x);
                        return Err(DataError::Arrow(m));
                    }
                    Value::Int(-*x)
                },
                _ => Value::Null,
            };
            out.push(cell);
            i = i + 1;
        }
        proof {
            if self.cells().contains(ValueModel::Int(i64::MIN)) {
                let k = choose|k: int| 0 <= k < self.cells().len() && self.cells()[k] == ValueModel::Int(i64::MIN);
                assert(av@[k]@ == self.cells()[k]);
            }
        }
        let s = Series::assemble(self.name_string(), SeriesType::Int64, out);
        assert(s.cells() =~= Seq::new(
            self.cells().len(),
            |i: int|
                match self.cells()[i] {
                    ValueModel::Int(x) => ValueModel::Int((-x) as i64),
                    _ => ValueModel::Null,
                },
        ));
        Ok(s)
    }
}

} // verus!
