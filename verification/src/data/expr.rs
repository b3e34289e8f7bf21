//! Evaluation of column expressions on the rows of a table of named columns.

use vstd::prelude::*;

use super::error::DataError;
use super::lazy::{ColumnExpr, DataType, FilterPredicate, LazyFrame};
use super::predicate::{column_pos, eval_rows, find_column, table_rows};
use super::predicate_laws::lemma_rows_ascending;
use super::value::{copy_value, same_value, value_views, Value, ValueModel};
use crate::fmt::{int_text, parse_i64, parsed_i64, push_int};

verus! {

// ---------------------------------------------------------------------------
// Values
// ---------------------------------------------------------------------------

/// An integer result as a value, or `None` where it does not fit an `i64`.
pub open spec fn int_result(x: int) -> Option<ValueModel> {
    if i64::MIN <= x <= i64::MAX {
        Some(ValueModel::Int(x as i64))
    } else {
        None
    }
}

/// The remainder of `x` divided by `y` with the sign of `x`, as Rust's `%`.
pub open spec fn trunc_rem(x: int, y: int) -> int {
    let m = if y < 0 {
        -y
    } else {
        y
    };
    if x >= 0 {
        x % m
    } else {
        -((-x) % m)
    }
}

fn rem_exec(x: i64, y: i64) -> (r: i64)
    requires
        y != 0,
        !(x == i64::MIN && y == -1),
    ensures
        r == trunc_rem(x as int, y as int),
{
    // Rust's remainder takes the sign of the dividend and the magnitude of
    // the remainder of the magnitudes.
    let ux: u64 = if x < 0 {
        (-(x as i128)) as u64
    } else {
        x as u64
    };
    let uy: u64 = if y < 0 {
        (-(y as i128)) as u64
    } else {
        y as u64
    };
    let m: u64 = ux % uy;
    if x < 0 {
        -(m as i64)
    } else {
        m as i64
    }
}

/// What evaluating an expression on a table gives.
pub enum Evaluated {
    /// One value for each row
    Values(Seq<ValueModel>),
    /// The name of the first column looked for that the table lacks
    Missing(Seq<char>),
    /// A result that overflows an `i64`, or a floating-point result (a
    /// division of integers, or a cast to `Float`), which this library does
    /// not compute
    Beyond,
}

/// The sum of two values: integers add and strings concatenate; any other
/// pair gives null.
pub open spec fn add_model(a: ValueModel, b: ValueModel) -> Option<ValueModel> {
    match (a, b) {
        (ValueModel::Int(x), ValueModel::Int(y)) => int_result(x + y),
        (ValueModel::Str(x), ValueModel::Str(y)) => Some(ValueModel::Str(x + y)),
        _ => Some(ValueModel::Null),
    }
}

/// The difference of two integers; any other pair gives null.
pub open spec fn sub_model(a: ValueModel, b: ValueModel) -> Option<ValueModel> {
    match (a, b) {
        (ValueModel::Int(x), ValueModel::Int(y)) => int_result(x - y),
        _ => Some(ValueModel::Null),
    }
}

/// The product of two integers; any other pair gives null.
pub open spec fn mul_model(a: ValueModel, b: ValueModel) -> Option<ValueModel> {
    match (a, b) {
        (ValueModel::Int(x), ValueModel::Int(y)) => int_result(x * y),
        _ => Some(ValueModel::Null),
    }
}

/// The quotient of two integers is a floating-point number; a zero divisor
/// or any other pair gives null.
pub open spec fn div_model(a: ValueModel, b: ValueModel) -> Option<ValueModel> {
    match (a, b) {
        (ValueModel::Int(_), ValueModel::Int(y)) => if y != 0 {
            None
        } else {
            Some(ValueModel::Null)
        },
        _ => Some(ValueModel::Null),
    }
}

/// The remainder of two integers; a zero divisor or any other pair gives
/// null.
pub open spec fn mod_model(a: ValueModel, b: ValueModel) -> Option<ValueModel> {
    match (a, b) {
        (ValueModel::Int(x), ValueModel::Int(y)) => if y == 0 {
            Some(ValueModel::Null)
        } else if x == i64::MIN && y == -1 {
            None
        } else {
            Some(ValueModel::Int(trunc_rem(x as int, y as int) as i64))
        },
        _ => Some(ValueModel::Null),
    }
}

/// The negation of an integer; any other value gives null.
pub open spec fn neg_model(v: ValueModel) -> Option<ValueModel> {
    match v {
        ValueModel::Int(x) => int_result(-x),
        _ => Some(ValueModel::Null),
    }
}

/// The absolute value of an integer; any other value gives null.
pub open spec fn abs_model(v: ValueModel) -> Option<ValueModel> {
    match v {
        ValueModel::Int(x) => int_result(if x < 0 {
            -x
        } else {
            x as int
        }),
        _ => Some(ValueModel::Null),
    }
}

/// A value as text: nothing for null, `true` or `false`, an integer in
/// decimal, a string as itself.
pub open spec fn text_of(v: ValueModel) -> Seq<char> {
    match v {
        ValueModel::Null => Seq::empty(),
        ValueModel::Bool(b) => if b {
            "true"@
        } else {
            "false"@
        },
        ValueModel::Int(i) => int_text(i as int),
        ValueModel::Str(s) => s,
    }
}

/// A value cast to a type. To `Int`: integers stay, strings parse (null if
/// they do not), booleans give one or zero. To `String`: the value's text.
/// To `Bool`: booleans stay, integers are true unless zero, strings unless
/// empty. Null stays null. A cast to `Float` gives a floating-point number.
pub open spec fn cast_model(t: DataType, v: ValueModel) -> Option<ValueModel> {
    match t {
        DataType::Int => match v {
            ValueModel::Int(i) => Some(ValueModel::Int(i)),
            ValueModel::Str(s) => Some(
                match parsed_i64(s) {
                    Some(x) => ValueModel::Int(x),
                    None => ValueModel::Null,
                },
            ),
            ValueModel::Bool(b) => Some(ValueModel::Int(if b {
                1
            } else {
                0
            })),
            ValueModel::Null => Some(ValueModel::Null),
        },
        DataType::Float => None,
        DataType::String => Some(ValueModel::Str(text_of(v))),
        DataType::Bool => match v {
            ValueModel::Bool(b) => Some(ValueModel::Bool(b)),
            ValueModel::Int(i) => Some(ValueModel::Bool(i != 0)),
            ValueModel::Str(s) => Some(ValueModel::Bool(s.len() > 0)),
            ValueModel::Null => Some(ValueModel::Null),
        },
    }
}

/// What a binary expression does to one pair of values.
pub open spec fn binary_model(e: ColumnExpr, a: ValueModel, b: ValueModel) -> Option<ValueModel> {
    match e {
        ColumnExpr::Add(..) => add_model(a, b),
        ColumnExpr::Sub(..) => sub_model(a, b),
        ColumnExpr::Mul(..) => mul_model(a, b),
        ColumnExpr::Div(..) => div_model(a, b),
        ColumnExpr::Mod(..) => mod_model(a, b),
        _ => Some(ValueModel::Null),
    }
}

/// What a unary expression does to one value.
pub open spec fn unary_model(e: ColumnExpr, v: ValueModel) -> Option<ValueModel> {
    match e {
        ColumnExpr::Neg(_) => neg_model(v),
        ColumnExpr::Abs(_) => abs_model(v),
        ColumnExpr::Cast(_, t) => cast_model(t, v),
        _ => Some(v),
    }
}

/// A binary expression applied row by row to two columns of values.
pub open spec fn zip_rows(e: ColumnExpr, a: Seq<ValueModel>, b: Seq<ValueModel>, n: nat) -> Evaluated {
    if forall|i: int| 0 <= i < n ==> #[trigger] binary_model(e, a[i], b[i]) is Some {
        Evaluated::Values(Seq::new(n, |i: int| binary_model(e, a[i], b[i]).unwrap()))
    } else {
        Evaluated::Beyond
    }
}

/// A unary expression applied row by row to a column of values.
pub open spec fn map_rows(e: ColumnExpr, a: Seq<ValueModel>, n: nat) -> Evaluated {
    if forall|i: int| 0 <= i < n ==> #[trigger] unary_model(e, a[i]) is Some {
        Evaluated::Values(Seq::new(n, |i: int| unary_model(e, a[i]).unwrap()))
    } else {
        Evaluated::Beyond
    }
}

/// The texts of the values of row `i` in each column, concatenated.
pub open spec fn concat_text(vss: Seq<Seq<ValueModel>>, i: int) -> Seq<char>
    decreases vss.len(),
{
    if vss.len() == 0 {
        Seq::empty()
    } else {
        concat_text(vss.drop_last(), i) + text_of(vss.last()[i])
    }
}

/// The first value of row `i` among the columns that is not null, or null.
pub open spec fn first_non_null(vss: Seq<Seq<ValueModel>>, i: int) -> ValueModel
    decreases vss.len(),
{
    if vss.len() == 0 {
        ValueModel::Null
    } else {
        let p = first_non_null(vss.drop_last(), i);
        if p != ValueModel::Null {
            p
        } else {
            vss.last()[i]
        }
    }
}

/// `base` with the listed rows taken from `with`.
pub open spec fn overwrite(base: Seq<ValueModel>, rows: Seq<usize>, with: Seq<ValueModel>) -> Seq<ValueModel> {
    Seq::new(base.len(), |i: int| if rows.contains(i as usize) {
        with[i]
    } else {
        base[i]
    })
}

// ---------------------------------------------------------------------------
// Expressions
// ---------------------------------------------------------------------------

/// Evaluating an expression on a table of `n` rows given as named columns.
/// Operands are evaluated left to right, each in full, before the rows are
/// combined; the first missing column or out-of-range result met ends the
/// evaluation. `Concat` joins the texts of its values, `Coalesce` takes the
/// first non-null value, and `Case` gives each row the value of the first
/// `when` whose predicate it satisfies, else `otherwise`.
pub open spec fn eval_expr(cols: Seq<(String, Vec<Value>)>, n: nat, e: ColumnExpr) -> Evaluated
    decreases e,
{
    match e {
        ColumnExpr::Column(name) => {
            let k = column_pos(cols, name@);
            if k < 0 {
                Evaluated::Missing(name@)
            } else {
                Evaluated::Values(Seq::new(n, |i: int| cols[k].1@[i]@))
            }
        },
        ColumnExpr::Literal(v) => Evaluated::Values(Seq::new(n, |i: int| v@)),
        ColumnExpr::Add(l, r) | ColumnExpr::Sub(l, r) | ColumnExpr::Mul(l, r) | ColumnExpr::Div(l, r)
        | ColumnExpr::Mod(l, r) => match eval_expr(cols, n, *l) {
            Evaluated::Values(a) => match eval_expr(cols, n, *r) {
                Evaluated::Values(b) => zip_rows(e, a, b, n),
                other => other,
            },
            other => other,
        },
        ColumnExpr::Neg(x) | ColumnExpr::Abs(x) | ColumnExpr::Cast(x, _) => match eval_expr(cols, n, *x) {
            Evaluated::Values(a) => map_rows(e, a, n),
            other => other,
        },
        ColumnExpr::Concat(es) => match eval_list(cols, n, es@) {
            Ok(vss) => Evaluated::Values(Seq::new(n, |i: int| ValueModel::Str(concat_text(vss, i)))),
            Err(x) => x,
        },
        ColumnExpr::Coalesce(es) => match eval_list(cols, n, es@) {
            Ok(vss) => Evaluated::Values(Seq::new(n, |i: int| first_non_null(vss, i))),
            Err(x) => x,
        },
        ColumnExpr::Case { when_then, otherwise } => eval_case(cols, n, when_then@, eval_expr(cols, n, *otherwise)),
    }
}

/// Evaluating a list of expressions in order: the values of each, or what
/// ended the evaluation of the first that did not give values.
pub open spec fn eval_list(cols: Seq<(String, Vec<Value>)>, n: nat, es: Seq<ColumnExpr>) -> Result<
    Seq<Seq<ValueModel>>,
    Evaluated,
>
    decreases es,
{
    if es.len() == 0 {
        Ok(Seq::empty())
    } else {
        match eval_list(cols, n, es.drop_last()) {
            Err(x) => Err(x),
            Ok(vss) => match eval_expr(cols, n, es.last()) {
                Evaluated::Values(v) => Ok(vss.push(v)),
                other => Err(other),
            },
        }
    }
}

/// Applying the `when` pairs of a case from the last to the first: each
/// evaluates its predicate and then its value, and gives the matching rows
/// that value.
pub open spec fn eval_case(
    cols: Seq<(String, Vec<Value>)>,
    n: nat,
    pairs: Seq<(FilterPredicate, ColumnExpr)>,
    base: Evaluated,
) -> Evaluated
    decreases pairs,
{
    if pairs.len() == 0 {
        base
    } else {
        match base {
            Evaluated::Values(vs) => match eval_rows(cols, n, pairs.last().0) {
                Err(c) => Evaluated::Missing(c),
                Ok(rows) => match eval_expr(cols, n, pairs.last().1) {
                    Evaluated::Values(tv) => eval_case(cols, n, pairs.drop_last(), Evaluated::Values(overwrite(vs, rows, tv))),
                    other => other,
                },
            },
            other => other,
        }
    }
}

// ---------------------------------------------------------------------------
// Evaluation
// ---------------------------------------------------------------------------

/// What a binary expression does to one pair of values.
fn binary_value(e: &ColumnExpr, a: &Value, b: &Value) -> (r: Value)
    requires
        binary_model(*e, a@, b@) is Some,
    ensures
        r@ == binary_model(*e, a@, b@).unwrap(),
{
    match e {
        ColumnExpr::Add(..) => match (a, b) {
            (Value::Int(x), Value::Int(y)) => Value::Int(*x + *y),
            (Value::String(x), Value::String(y)) => {
                let mut s = x.clone();
                s.append(y.as_str());
                Value::String(s)
            },
            _ => Value::Null,
        },
        ColumnExpr::Sub(..) => match (a, b) {
            (Value::Int(x), Value::Int(y)) => Value::Int(*x - *y),
            _ => Value::Null,
        },
        ColumnExpr::Mul(..) => match (a, b) {
            (Value::Int(x), Value::Int(y)) => Value::Int(*x * *y),
            _ => Value::Null,
        },
        ColumnExpr::Mod(..) => match (a, b) {
            (Value::Int(x), Value::Int(y)) => if *y == 0 {
                Value::Null
            } else {
                Value::Int(rem_exec(*x, *y))
            },
            _ => Value::Null,
        },
        _ => Value::Null,
    }
}

/// Appends the text of a value.
fn push_text(out: &mut String, v: &Value)
    ensures
        final(out)@ == old(out)@ + text_of(v@),
{
    match v {
        Value::Null => {
            assert(old(out)@ + Seq::<char>::empty() =~= old(out)@);
        },
        Value::Bool(b) => {
            if *b {
                out.append("true");
            } else {
                out.append("false");
            }
        },
        Value::Int(i) => push_int(out, *i),
        Value::String(s) => out.append(s.as_str()),
    }
}

/// A value cast to a type other than `Float`.
fn cast_value(t: DataType, v: &Value) -> (r: Value)
    requires
        cast_model(t, v@) is Some,
    ensures
        r@ == cast_model(t, v@).unwrap(),
{
    match t {
        DataType::Int => match v {
            Value::Int(i) => Value::Int(*i),
            Value::String(s) => match parse_i64(s.as_str()) {
                Some(x) => Value::Int(x),
                None => Value::Null,
            },
            Value::Bool(b) => Value::Int(if *b {
                1
            } else {
                0
            }),
            Value::Null => Value::Null,
        },
        DataType::String => {
            let mut s = String::new();
            push_text(&mut s, v);
            assert(Seq::<char>::empty() + text_of(v@) =~= text_of(v@));
            Value::String(s)
        },
        DataType::Bool => match v {
            Value::Bool(b) => Value::Bool(*b),
            Value::Int(i) => Value::Bool(*i != 0),
            Value::String(s) => Value::Bool(s.as_str().unicode_len() > 0),
            Value::Null => Value::Null,
        },
        DataType::Float => vstd::pervasive::unreached(),
    }
}

/// What a unary expression does to one value.
fn unary_value(e: &ColumnExpr, v: &Value) -> (r: Value)
    requires
        unary_model(*e, v@) is Some,
    ensures
        r@ == unary_model(*e, v@).unwrap(),
{
    match e {
        ColumnExpr::Neg(_) => match v {
            Value::Int(x) => Value::Int(-*x),
            _ => Value::Null,
        },
        ColumnExpr::Abs(_) => match v {
            Value::Int(x) => Value::Int(if *x < 0 {
                -*x
            } else {
                *x
            }),
            _ => Value::Null,
        },
        ColumnExpr::Cast(_, t) => cast_value(*t, v),
        _ => copy_value(v),
    }
}

/// A binary expression applied row by row.
fn zip_values(e: &ColumnExpr, a: &Vec<Value>, b: &Vec<Value>, num_rows: usize) -> (r: Vec<Value>)
    requires
        a@.len() == num_rows,
        b@.len() == num_rows,
        zip_rows(*e, value_views(a@), value_views(b@), num_rows as nat) is Values,
    ensures
        r@.len() == num_rows,
        value_views(r@) == zip_rows(*e, value_views(a@), value_views(b@), num_rows as nat)->Values_0,
{
    let ghost va = value_views(a@);
    let ghost vb = value_views(b@);
    let mut out: Vec<Value> = Vec::new();
    let mut i: usize = 0;
    while i < num_rows
        invariant
            i <= num_rows,
            a@.len() == num_rows,
            b@.len() == num_rows,
            va == value_views(a@),
            vb == value_views(b@),
            forall|m: int| 0 <= m < num_rows ==> #[trigger] binary_model(*e, va[m], vb[m]) is Some,
            out@.len() == i,
            forall|m: int| 0 <= m < i ==> (#[trigger] out@[m])@ == binary_model(*e, va[m], vb[m]).unwrap(),
        decreases num_rows - i,
    {
        assert(binary_model(*e, va[i as int], vb[i as int]) is Some);
        out.push(binary_value(e, &a[i], &b[i]));
        i = i + 1;
    }
    assert(value_views(out@) =~= zip_rows(*e, va, vb, num_rows as nat)->Values_0);
    out
}

/// A unary expression applied row by row.
fn map_values(e: &ColumnExpr, a: &Vec<Value>, num_rows: usize) -> (r: Vec<Value>)
    requires
        a@.len() == num_rows,
        map_rows(*e, value_views(a@), num_rows as nat) is Values,
    ensures
        r@.len() == num_rows,
        value_views(r@) == map_rows(*e, value_views(a@), num_rows as nat)->Values_0,
{
    let ghost va = value_views(a@);
    let mut out: Vec<Value> = Vec::new();
    let mut i: usize = 0;
    while i < num_rows
        invariant
            i <= num_rows,
            a@.len() == num_rows,
            va == value_views(a@),
            forall|m: int| 0 <= m < num_rows ==> #[trigger] unary_model(*e, va[m]) is Some,
            out@.len() == i,
            forall|m: int| 0 <= m < i ==> (#[trigger] out@[m])@ == unary_model(*e, va[m]).unwrap(),
        decreases num_rows - i,
    {
        assert(unary_model(*e, va[i as int]) is Some);
        out.push(unary_value(e, &a[i]));
        i = i + 1;
    }
    assert(value_views(out@) =~= map_rows(*e, va, num_rows as nat)->Values_0);
    out
}

/// A list whose first `k` expressions already end the evaluation ends it
/// the same way in full.
proof fn lemma_eval_list_prefix_err(cols: Seq<(String, Vec<Value>)>, n: nat, es: Seq<ColumnExpr>, k: int)
    requires
        0 <= k <= es.len(),
        eval_list(cols, n, es.take(k)) is Err,
    ensures
        eval_list(cols, n, es) == eval_list(cols, n, es.take(k)),
    decreases es.len() - k,
{
    if k < es.len() {
        assert(es.take(k + 1).drop_last() =~= es.take(k));
        lemma_eval_list_prefix_err(cols, n, es, k + 1);
    } else {
        assert(es.take(k) =~= es);
    }
}

/// A case whose `otherwise` gives no values gives what it gave.
proof fn lemma_eval_case_passes(
    cols: Seq<(String, Vec<Value>)>,
    n: nat,
    pairs: Seq<(FilterPredicate, ColumnExpr)>,
    base: Evaluated,
)
    requires
        !(base is Values),
    ensures
        eval_case(cols, n, pairs, base) == base,
{
}

/// The values of a list of value lists.
pub open spec fn value_rows(vs: Seq<Vec<Value>>) -> Seq<Seq<ValueModel>> {
    vs.map_values(|v: Vec<Value>| value_views(v@))
}

impl LazyFrame {
    /// Evaluate a column expression on a table of `num_rows` rows, given as
    /// named columns, and return its value for each row; see [`eval_expr`].
    /// An expression on a column the table lacks fails with
    /// `ColumnNotFound`.
    pub fn evaluate_expr(columns: &Vec<(String, Vec<Value>)>, num_rows: usize, expr: &ColumnExpr) -> (r: Result<Vec<Value>, DataError>)
        requires
            table_rows(columns@, num_rows as nat),
            !(eval_expr(columns@, num_rows as nat, *expr) is Beyond),
        ensures
            match eval_expr(columns@, num_rows as nat, *expr) {
                Evaluated::Values(vs) => r matches Ok(v) && v@.len() == num_rows && value_views(v@) == vs,
                Evaluated::Missing(c) => r matches Err(DataError::ColumnNotFound(name)) && name@ == c,
                Evaluated::Beyond => false,
            },
        decreases *expr,
    {
        match expr {
            ColumnExpr::Column(name) => match find_column(columns, name) {
                None => Err(DataError::ColumnNotFound(name.clone())),
                Some(k) => {
                    let col = &columns[k].1;
                    assert(col@.len() == num_rows) by {
                        assert(columns@[k as int].1@.len() == num_rows);
                    }
                    let mut out: Vec<Value> = Vec::new();
                    let mut i: usize = 0;
                    while i < num_rows
                        invariant
                            i <= num_rows,
                            col@.len() == num_rows,
                            out@.len() == i,
                            forall|m: int| 0 <= m < i ==> (#[trigger] out@[m])@ == col@[m]@,
                        decreases num_rows - i,
                    {
                        out.push(copy_value(&col[i]));
                        i = i + 1;
                    }
                    assert(value_views(out@) =~= Seq::new(num_rows as nat, |m: int| columns@[k as int].1@[m]@));
                    Ok(out)
                },
            },
            ColumnExpr::Literal(v) => {
                let mut out: Vec<Value> = Vec::new();
                let mut i: usize = 0;
                while i < num_rows
                    invariant
                        i <= num_rows,
                        out@.len() == i,
                        forall|m: int| 0 <= m < i ==> (#[trigger] out@[m])@ == v@,
                    decreases num_rows - i,
                {
                    out.push(copy_value(v));
                    i = i + 1;
                }
                assert(value_views(out@) =~= Seq::new(num_rows as nat, |m: int| v@));
                Ok(out)
            },
            ColumnExpr::Add(l, rt) | ColumnExpr::Sub(l, rt) | ColumnExpr::Mul(l, rt) | ColumnExpr::Div(l, rt)
            | ColumnExpr::Mod(l, rt) => {
                let a = Self::evaluate_expr(columns, num_rows, l)?;
                let b = Self::evaluate_expr(columns, num_rows, rt)?;
                Ok(zip_values(expr, &a, &b, num_rows))
            },
            ColumnExpr::Neg(x) | ColumnExpr::Abs(x) | ColumnExpr::Cast(x, _) => {
                let a = Self::evaluate_expr(columns, num_rows, x)?;
                Ok(map_values(expr, &a, num_rows))
            },
            ColumnExpr::Concat(es) => {
                let vs = Self::evaluate_all(columns, num_rows, es)?;
                let ghost vss = value_rows(vs@);
                let mut out: Vec<Value> = Vec::new();
                let mut i: usize = 0;
                while i < num_rows
                    invariant
                        i <= num_rows,
                        vss == value_rows(vs@),
                        forall|j: int| 0 <= j < vs@.len() ==> (#[trigger] vs@[j])@.len() == num_rows,
                        out@.len() == i,
                        forall|m: int| 0 <= m < i ==> (#[trigger] out@[m])@ == ValueModel::Str(concat_text(vss, m)),
                    decreases num_rows - i,
                {
                    let mut s = String::new();
                    let mut j: usize = 0;
                    while j < vs.len()
                        invariant
                            i < num_rows,
                            j <= vs@.len(),
                            vss == value_rows(vs@),
                            forall|q: int| 0 <= q < vs@.len() ==> (#[trigger] vs@[q])@.len() == num_rows,
                            s@ == concat_text(vss.take(j as int), i as int),
                        decreases vs.len() - j,
                    {
                        assert(vss.take(j + 1).drop_last() =~= vss.take(j as int));
                        assert(vss.take(j + 1).last()[i as int] == vs@[j as int]@[i as int]@);
                        push_text(&mut s, &vs[j][i]);
                        j = j + 1;
                    }
                    assert(vss.take(vs@.len() as int) =~= vss);
                    out.push(Value::String(s));
                    i = i + 1;
                }
                assert(value_views(out@) =~= Seq::new(num_rows as nat, |m: int| ValueModel::Str(concat_text(vss, m))));
                Ok(out)
            },
            ColumnExpr::Coalesce(es) => {
                let vs = Self::evaluate_all(columns, num_rows, es)?;
                let ghost vss = value_rows(vs@);
                let mut out: Vec<Value> = Vec::new();
                let mut i: usize = 0;
                while i < num_rows
                    invariant
                        i <= num_rows,
                        vss == value_rows(vs@),
                        forall|j: int| 0 <= j < vs@.len() ==> (#[trigger] vs@[j])@.len() == num_rows,
                        out@.len() == i,
                        forall|m: int| 0 <= m < i ==> (#[trigger] out@[m])@ == first_non_null(vss, m),
                    decreases num_rows - i,
                {
                    let mut acc = Value::Null;
                    let mut j: usize = 0;
                    while j < vs.len()
                        invariant
                            i < num_rows,
                            j <= vs@.len(),
                            vss == value_rows(vs@),
                            forall|q: int| 0 <= q < vs@.len() ==> (#[trigger] vs@[q])@.len() == num_rows,
                            acc@ == first_non_null(vss.take(j as int), i as int),
                        decreases vs.len() - j,
                    {
                        assert(vss.take(j + 1).drop_last() =~= vss.take(j as int));
                        assert(vss.take(j + 1).last()[i as int] == vs@[j as int]@[i as int]@);
                        if same_value(&acc, &Value::Null) {
                            acc = copy_value(&vs[j][i]);
                        }
                        j = j + 1;
                    }
                    assert(vss.take(vs@.len() as int) =~= vss);
                    out.push(acc);
                    i = i + 1;
                }
                assert(value_views(out@) =~= Seq::new(num_rows as nat, |m: int| first_non_null(vss, m)));
                Ok(out)
            },
            ColumnExpr::Case { when_then, otherwise } => {
                proof {
                    let base = eval_expr(columns@, num_rows as nat, **otherwise);
                    if !(base is Values) {
                        lemma_eval_case_passes(columns@, num_rows as nat, when_then@, base);
                    }
                }
                let mut result = Self::evaluate_expr(columns, num_rows, otherwise)?;
                let ghost pairs = when_then@;
                let mut k: usize = when_then.len();
                assert(pairs.take(k as int) =~= pairs);
                while k > 0
                    invariant
                        k <= pairs.len(),
                        pairs == when_then@,
                        table_rows(columns@, num_rows as nat),
                        *expr == (ColumnExpr::Case { when_then: *when_then, otherwise: *otherwise }),
                        result@.len() == num_rows,
                        !(eval_expr(columns@, num_rows as nat, *expr) is Beyond),
                        eval_expr(columns@, num_rows as nat, *expr) == eval_case(
                            columns@,
                            num_rows as nat,
                            pairs.take(k as int),
                            Evaluated::Values(value_views(result@)),
                        ),
                    decreases k,
                {
                    let pair = &when_then[k - 1];
                    assert(pairs.take(k as int).drop_last() =~= pairs.take(k - 1));
                    assert(pairs.take(k as int).last() == pairs[k - 1]);
                    let rows = Self::evaluate_predicate(columns, num_rows, &pair.0)?;
                    proof {
                        lemma_rows_ascending(columns@, num_rows as nat, pair.0);
                    }
                    assert(decreases_to!(*expr => pairs[k - 1].1));
                    let tv = Self::evaluate_expr(columns, num_rows, &pair.1)?;
                    let ghost before = value_views(result@);
                    let ghost tvv = value_views(tv@);
                    let mut j: usize = 0;
                    while j < rows.len()
                        invariant
                            j <= rows@.len(),
                            result@.len() == num_rows,
                            tv@.len() == num_rows,
                            tvv == value_views(tv@),
                            before.len() == num_rows,
                            forall|q: int| 0 <= q < rows@.len() ==> (#[trigger] rows@[q] as nat) < num_rows,
                            value_views(result@) == overwrite(before, rows@.take(j as int), tvv),
                        decreases rows.len() - j,
                    {
                        let idx = rows[j];
                        let v = copy_value(&tv[idx]);
                        let ghost prev = value_views(result@);
                        result.set(idx, v);
                        assert(value_views(result@) =~= prev.update(idx as int, tvv[idx as int]));
                        assert(value_views(result@) =~= overwrite(before, rows@.take(j + 1), tvv)) by {
                            assert(forall|x: usize| #[trigger] rows@.take(j + 1).contains(x) <==> rows@.take(j as int).contains(x) || x == idx) by {
                                assert forall|x: usize| rows@.take(j + 1).contains(x) implies rows@.take(j as int).contains(x) || x == idx by {
                                    let q = choose|q: int| 0 <= q < rows@.take(j + 1).len() && #[trigger] rows@.take(j + 1)[q] == x;
                                    if q < j {
                                        assert(rows@.take(j as int)[q] == x);
                                    }
                                }
                                assert forall|x: usize| rows@.take(j as int).contains(x) || x == idx implies rows@.take(j + 1).contains(x) by {
                                    if x == idx {
                                        assert(rows@.take(j + 1)[j as int] == x);
                                    } else {
                                        let q = choose|q: int| 0 <= q < rows@.take(j as int).len() && #[trigger] rows@.take(j as int)[q] == x;
                                        assert(rows@.take(j + 1)[q] == x);
                                    }
                                }
                            }
                        }
                        j = j + 1;
                    }
                    assert(rows@.take(rows@.len() as int) =~= rows@);
                    k = k - 1;
                }
                Ok(result)
            },
        }
    }

    /// Evaluate a list of expressions in order, each on every row.
    fn evaluate_all(columns: &Vec<(String, Vec<Value>)>, num_rows: usize, es: &Vec<ColumnExpr>) -> (r: Result<Vec<Vec<Value>>, DataError>)
        requires
            table_rows(columns@, num_rows as nat),
            !(eval_list(columns@, num_rows as nat, es@) matches Err(Evaluated::Beyond)),
        ensures
            match eval_list(columns@, num_rows as nat, es@) {
                Ok(vss) => r matches Ok(vs) && value_rows(vs@) == vss && forall|j: int|
                    0 <= j < vs@.len() ==> (#[trigger] vs@[j])@.len() == num_rows,
                Err(Evaluated::Missing(c)) => r matches Err(DataError::ColumnNotFound(name)) && name@ == c,
                Err(_) => false,
            },
        decreases es@,
    {
        let mut out: Vec<Vec<Value>> = Vec::new();
        let mut i: usize = 0;
        assert(es@.take(0) =~= Seq::<ColumnExpr>::empty());
        assert(value_rows(out@) =~= Seq::<Seq<ValueModel>>::empty());
        while i < es.len()
            invariant
                i <= es@.len(),
                table_rows(columns@, num_rows as nat),
                !(eval_list(columns@, num_rows as nat, es@) matches Err(Evaluated::Beyond)),
                out@.len() == i,
                eval_list(columns@, num_rows as nat, es@.take(i as int)) == Ok::<Seq<Seq<ValueModel>>, Evaluated>(value_rows(out@)),
                forall|j: int| 0 <= j < out@.len() ==> (#[trigger] out@[j])@.len() == num_rows,
            decreases es.len() - i,
        {
            assert(es@.take(i + 1).drop_last() =~= es@.take(i as int));
            assert(es@.take(i + 1).last() == es@[i as int]);
            proof {
                if eval_expr(columns@, num_rows as nat, es@[i as int]) is Beyond {
                    lemma_eval_list_prefix_err(columns@, num_rows as nat, es@, i + 1);
                }
            }
            assert(decreases_to!(es@ => es@[i as int]));
            let v = match Self::evaluate_expr(columns, num_rows, &es[i]) {
                Ok(v) => v,
                Err(e) => {
                    proof {
                        lemma_eval_list_prefix_err(columns@, num_rows as nat, es@, i + 1);
                    }
                    return Err(e);
                },
            };
            let ghost before = out@;
            out.push(v);
            assert(value_rows(out@) =~= value_rows(before).push(value_views(out@[i as int]@)));
            i = i + 1;
        }
        assert(es@.take(es@.len() as int) =~= es@);
        Ok(out)
    }
}

} // verus!
