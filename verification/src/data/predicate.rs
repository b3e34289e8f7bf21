//! Evaluation of filter predicates on the rows of a table of named columns.

use vstd::prelude::*;

use super::error::DataError;
use super::lazy::{FilterPredicate, LazyFrame};
use super::value::{same_value, value_views, Value, ValueModel};
use crate::text::{
    chars_of, contains_seq, contains_str, ends_with, has_prefix, has_suffix, lex_le, lex_le_exec,
    starts_with, str_eq,
};

verus! {

// ---------------------------------------------------------------------------
// Comparing values
// ---------------------------------------------------------------------------

/// `a` orders before `b`: integers by value, strings by code points; values
/// of other kinds are not ordered.
pub open spec fn value_lt(a: ValueModel, b: ValueModel) -> bool {
    match (a, b) {
        (ValueModel::Int(x), ValueModel::Int(y)) => x < y,
        (ValueModel::Str(x), ValueModel::Str(y)) => lex_le(x, y) && x != y,
        _ => false,
    }
}

/// `a` orders after `b`.
pub open spec fn value_gt(a: ValueModel, b: ValueModel) -> bool {
    match (a, b) {
        (ValueModel::Int(x), ValueModel::Int(y)) => x > y,
        (ValueModel::Str(x), ValueModel::Str(y)) => lex_le(y, x) && x != y,
        _ => false,
    }
}

/// `a` is `b` or orders before it.
pub open spec fn value_le(a: ValueModel, b: ValueModel) -> bool {
    a == b || value_lt(a, b)
}

/// `a` is `b` or orders after it.
pub open spec fn value_ge(a: ValueModel, b: ValueModel) -> bool {
    a == b || value_gt(a, b)
}

fn compare_lt(a: &Value, b: &Value) -> (r: bool)
    ensures
        r == value_lt(a@, b@),
{
    match (a, b) {
        (Value::Int(x), Value::Int(y)) => *x < *y,
        (Value::String(x), Value::String(y)) => {
            let xs = chars_of(x.as_str());
            let ys = chars_of(y.as_str());
            lex_le_exec(&xs, &ys) && !str_eq(x.as_str(), y.as_str())
        },
        _ => false,
    }
}

fn compare_gt(a: &Value, b: &Value) -> (r: bool)
    ensures
        r == value_gt(a@, b@),
{
    match (a, b) {
        (Value::Int(x), Value::Int(y)) => *x > *y,
        (Value::String(x), Value::String(y)) => {
            let xs = chars_of(x.as_str());
            let ys = chars_of(y.as_str());
            lex_le_exec(&ys, &xs) && !str_eq(x.as_str(), y.as_str())
        },
        _ => false,
    }
}

fn compare_le(a: &Value, b: &Value) -> (r: bool)
    ensures
        r == value_le(a@, b@),
{
    same_value(a, b) || compare_lt(a, b)
}

fn compare_ge(a: &Value, b: &Value) -> (r: bool)
    ensures
        r == value_ge(a@, b@),
{
    same_value(a, b) || compare_gt(a, b)
}

// ---------------------------------------------------------------------------
// Predicates
// ---------------------------------------------------------------------------

/// The column a simple predicate tests; `None` for `And`, `Or` and `Not`.
pub open spec fn tested_column(p: FilterPredicate) -> Option<Seq<char>> {
    match p {
        FilterPredicate::Eq(c, _) | FilterPredicate::Ne(c, _) | FilterPredicate::Lt(c, _)
        | FilterPredicate::Le(c, _) | FilterPredicate::Gt(c, _) | FilterPredicate::Ge(c, _)
        | FilterPredicate::IsNull(c) | FilterPredicate::IsNotNull(c) | FilterPredicate::In(c, _)
        | FilterPredicate::NotIn(c, _) | FilterPredicate::Contains(c, _) | FilterPredicate::StartsWith(c, _)
        | FilterPredicate::EndsWith(c, _) | FilterPredicate::Between(c, _, _) => Some(c@),
        _ => None,
    }
}

/// A value satisfies a simple predicate.
pub open spec fn satisfies(p: FilterPredicate, v: ValueModel) -> bool {
    match p {
        FilterPredicate::Eq(_, x) => v == x@,
        FilterPredicate::Ne(_, x) => v != x@,
        FilterPredicate::Lt(_, x) => value_lt(v, x@),
        FilterPredicate::Le(_, x) => value_le(v, x@),
        FilterPredicate::Gt(_, x) => value_gt(v, x@),
        FilterPredicate::Ge(_, x) => value_ge(v, x@),
        FilterPredicate::IsNull(_) => v == ValueModel::Null,
        FilterPredicate::IsNotNull(_) => v != ValueModel::Null,
        FilterPredicate::In(_, xs) => value_views(xs@).contains(v),
        FilterPredicate::NotIn(_, xs) => !value_views(xs@).contains(v),
        FilterPredicate::Contains(_, t) => v matches ValueModel::Str(s) && contains_seq(s, t@),
        FilterPredicate::StartsWith(_, t) => v matches ValueModel::Str(s) && has_prefix(s, t@),
        FilterPredicate::EndsWith(_, t) => v matches ValueModel::Str(s) && has_suffix(s, t@),
        FilterPredicate::Between(_, lo, hi) => value_ge(v, lo@) && value_le(v, hi@),
        _ => false,
    }
}

/// Position of the first column named `name`, or -1.
pub open spec fn column_pos(cols: Seq<(String, Vec<Value>)>, name: Seq<char>) -> int
    decreases cols.len(),
{
    if cols.len() == 0 {
        -1
    } else if column_pos(cols.drop_last(), name) >= 0 {
        column_pos(cols.drop_last(), name)
    } else if cols.last().0@ == name {
        cols.len() - 1
    } else {
        -1
    }
}

/// The rows before `n`, in order, whose value in `col` satisfies `p`.
pub open spec fn rows_where(col: Seq<ValueModel>, p: FilterPredicate, n: nat) -> Seq<usize>
    decreases n,
{
    if n == 0 {
        Seq::empty()
    } else if satisfies(p, col[n - 1]) {
        rows_where(col, p, (n - 1) as nat).push((n - 1) as usize)
    } else {
        rows_where(col, p, (n - 1) as nat)
    }
}

/// The rows before `n`, in order, that are in `a` or in `b`.
pub open spec fn rows_in_either(a: Seq<usize>, b: Seq<usize>, n: nat) -> Seq<usize>
    decreases n,
{
    if n == 0 {
        Seq::empty()
    } else if a.contains((n - 1) as usize) || b.contains((n - 1) as usize) {
        rows_in_either(a, b, (n - 1) as nat).push((n - 1) as usize)
    } else {
        rows_in_either(a, b, (n - 1) as nat)
    }
}

/// The rows before `n`, in order, that are not in `a`.
pub open spec fn rows_not_in(a: Seq<usize>, n: nat) -> Seq<usize>
    decreases n,
{
    if n == 0 {
        Seq::empty()
    } else if !a.contains((n - 1) as usize) {
        rows_not_in(a, (n - 1) as nat).push((n - 1) as usize)
    } else {
        rows_not_in(a, (n - 1) as nat)
    }
}

/// The rows of `b`, in its order, that are also in `a`.
pub open spec fn rows_also_in(b: Seq<usize>, a: Seq<usize>) -> Seq<usize>
    decreases b.len(),
{
    if b.len() == 0 {
        Seq::empty()
    } else if a.contains(b.last()) {
        rows_also_in(b.drop_last(), a).push(b.last())
    } else {
        rows_also_in(b.drop_last(), a)
    }
}

/// The rows of a table of `n` rows that satisfy a predicate, or the name of
/// the first missing column the evaluation comes to.
pub open spec fn eval_rows(cols: Seq<(String, Vec<Value>)>, n: nat, p: FilterPredicate) -> Result<
    Seq<usize>,
    Seq<char>,
>
    decreases p,
{
    match p {
        FilterPredicate::And(l, r) => match eval_rows(cols, n, *l) {
            Err(e) => Err(e),
            Ok(a) => match eval_rows(cols, n, *r) {
                Err(e) => Err(e),
                Ok(b) => Ok(rows_also_in(b, a)),
            },
        },
        FilterPredicate::Or(l, r) => match eval_rows(cols, n, *l) {
            Err(e) => Err(e),
            Ok(a) => match eval_rows(cols, n, *r) {
                Err(e) => Err(e),
                Ok(b) => Ok(rows_in_either(a, b, n)),
            },
        },
        FilterPredicate::Not(inner) => match eval_rows(cols, n, *inner) {
            Err(e) => Err(e),
            Ok(a) => Ok(rows_not_in(a, n)),
        },
        _ => {
            let name = tested_column(p).unwrap();
            let k = column_pos(cols, name);
            if k < 0 {
                Err(name)
            } else {
                Ok(rows_where(value_views(cols[k].1@), p, n))
            }
        },
    }
}

/// Every column of the table has `n` rows.
pub open spec fn table_rows(cols: Seq<(String, Vec<Value>)>, n: nat) -> bool {
    forall|k: int| 0 <= k < cols.len() ==> (#[trigger] cols[k]).1@.len() == n
}

/// Whether a value satisfies a simple predicate.
fn satisfies_exec(p: &FilterPredicate, v: &Value) -> (r: bool)
    ensures
        r == satisfies(*p, v@),
{
    match p {
        FilterPredicate::Eq(_, x) => same_value(v, x),
        FilterPredicate::Ne(_, x) => !same_value(v, x),
        FilterPredicate::Lt(_, x) => compare_lt(v, x),
        FilterPredicate::Le(_, x) => compare_le(v, x),
        FilterPredicate::Gt(_, x) => compare_gt(v, x),
        FilterPredicate::Ge(_, x) => compare_ge(v, x),
        FilterPredicate::IsNull(_) => same_value(v, &Value::Null),
        FilterPredicate::IsNotNull(_) => !same_value(v, &Value::Null),
        FilterPredicate::In(_, xs) => contains_value(xs, v),
        FilterPredicate::NotIn(_, xs) => !contains_value(xs, v),
        FilterPredicate::Contains(_, t) => match v {
            Value::String(s) => {
                let sc = chars_of(s.as_str());
                contains_str(&sc, t.as_str())
            },
            _ => false,
        },
        FilterPredicate::StartsWith(_, t) => match v {
            Value::String(s) => {
                let sc = chars_of(s.as_str());
                starts_with(&sc, t.as_str())
            },
            _ => false,
        },
        FilterPredicate::EndsWith(_, t) => match v {
            Value::String(s) => {
                let sc = chars_of(s.as_str());
                ends_with(&sc, t.as_str())
            },
            _ => false,
        },
        FilterPredicate::Between(_, lo, hi) => compare_ge(v, lo) && compare_le(v, hi),
        _ => false,
    }
}

/// Whether some value of the list is `v`.
pub(crate) fn contains_value(xs: &Vec<Value>, v: &Value) -> (r: bool)
    ensures
        r == value_views(xs@).contains(v@),
{
    let ghost xv = value_views(xs@);
    let mut i: usize = 0;
    while i < xs.len()
        invariant
            i <= xs@.len(),
            xv == value_views(xs@),
            forall|k: int| 0 <= k < i ==> xv[k] != v@,
        decreases xs.len() - i,
    {
        if same_value(&xs[i], v) {
            assert(xv[i as int] == v@);
            return true;
        }
        i = i + 1;
    }
    false
}

/// Whether a list of rows holds `x`.
fn contains_row(rows: &Vec<usize>, x: usize) -> (r: bool)
    ensures
        r == rows@.contains(x),
{
    let mut i: usize = 0;
    while i < rows.len()
        invariant
            i <= rows@.len(),
            forall|k: int| 0 <= k < i ==> rows@[k] != x,
        decreases rows.len() - i,
    {
        if rows[i] == x {
            return true;
        }
        i = i + 1;
    }
    false
}

/// The column of a table with the given name, as its position.
pub(crate) fn find_column(cols: &Vec<(String, Vec<Value>)>, name: &String) -> (r: Option<usize>)
    ensures
        match r {
            Some(k) => column_pos(cols@, name@) == k && k < cols@.len(),
            None => column_pos(cols@, name@) < 0,
        },
{
    let mut i: usize = 0;
    while i < cols.len()
        invariant
            i <= cols@.len(),
            column_pos(cols@.take(i as int), name@) < 0,
        decreases cols.len() - i,
    {
        assert(cols@.take(i + 1).drop_last() =~= cols@.take(i as int));
        if str_eq(cols[i].0.as_str(), name.as_str()) {
            proof {
                lemma_column_pos_prefix(cols@, name@, (i + 1) as int);
                assert(cols@.take(i + 1).last() == cols@[i as int]);
            }
            return Some(i);
        }
        i = i + 1;
    }
    assert(cols@.take(cols@.len() as int) =~= cols@);
    None
}

/// A column found in a prefix is the column found in the whole table.
proof fn lemma_column_pos_prefix(cols: Seq<(String, Vec<Value>)>, name: Seq<char>, k: int)
    requires
        0 <= k <= cols.len(),
        column_pos(cols.take(k), name) >= 0,
    ensures
        column_pos(cols, name) == column_pos(cols.take(k), name),
    decreases cols.len() - k,
{
    if k < cols.len() {
        assert(cols.take(k + 1).drop_last() =~= cols.take(k));
        lemma_column_pos_prefix(cols, name, k + 1);
    } else {
        assert(cols.take(k) =~= cols);
    }
}

impl LazyFrame {
    /// Evaluate a predicate on a table of `num_rows` rows, given as named
    /// columns, and return the matching rows in order. A simple predicate
    /// tests each value of its column; `And` keeps the rows of its right
    /// side that its left side also matched, `Or` and `Not` give rows in
    /// ascending order. A predicate on a column the table lacks fails with
    /// `ColumnNotFound`.
    pub fn evaluate_predicate(columns: &Vec<(String, Vec<Value>)>, num_rows: usize, pred: &FilterPredicate) -> (r: Result<Vec<usize>, DataError>)
        requires
            table_rows(columns@, num_rows as nat),
        ensures
            match eval_rows(columns@, num_rows as nat, *pred) {
                Ok(rows) => r matches Ok(v) && v@ == rows,
                Err(name) => r matches Err(DataError::ColumnNotFound(c)) && c@ == name,
            },
        decreases pred,
    {
        match pred {
            FilterPredicate::And(l, rt) => {
                let a = Self::evaluate_predicate(columns, num_rows, l)?;
                let b = Self::evaluate_predicate(columns, num_rows, rt)?;
                let mut out: Vec<usize> = Vec::new();
                let mut i: usize = 0;
                while i < b.len()
                    invariant
                        i <= b@.len(),
                        out@ == rows_also_in(b@.take(i as int), a@),
                    decreases b.len() - i,
                {
                    assert(b@.take(i + 1).drop_last() =~= b@.take(i as int));
                    if contains_row(&a, b[i]) {
                        out.push(b[i]);
                    }
                    i = i + 1;
                }
                assert(b@.take(b@.len() as int) =~= b@);
                Ok(out)
            },
            FilterPredicate::Or(l, rt) => {
                let a = Self::evaluate_predicate(columns, num_rows, l)?;
                let b = Self::evaluate_predicate(columns, num_rows, rt)?;
                let mut out: Vec<usize> = Vec::new();
                let mut i: usize = 0;
                while i < num_rows
                    invariant
                        i <= num_rows,
                        out@ == rows_in_either(a@, b@, i as nat),
                    decreases num_rows - i,
                {
                    if contains_row(&a, i) || contains_row(&b, i) {
                        out.push(i);
                    }
                    i = i + 1;
                }
                Ok(out)
            },
            FilterPredicate::Not(inner) => {
                let a = Self::evaluate_predicate(columns, num_rows, inner)?;
                let mut out: Vec<usize> = Vec::new();
                let mut i: usize = 0;
                while i < num_rows
                    invariant
                        i <= num_rows,
                        out@ == rows_not_in(a@, i as nat),
                    decreases num_rows - i,
                {
                    if !contains_row(&a, i) {
                        out.push(i);
                    }
                    i = i + 1;
                }
                Ok(out)
            },
            _ => {
                let name = Self::predicate_column(pred);
                match find_column(columns, name) {
                    None => Err(DataError::ColumnNotFound(name.clone())),
                    Some(k) => {
                        let col = &columns[k].1;
                        assert(col@.len() == num_rows) by {
                            assert(columns@[k as int].1@.len() == num_rows);
                        }
                        let ghost cv = value_views(col@);
                        let mut out: Vec<usize> = Vec::new();
                        let mut i: usize = 0;
                        while i < num_rows
                            invariant
                                i <= num_rows,
                                col@.len() == num_rows,
                                cv == value_views(col@),
                                out@ == rows_where(cv, *pred, i as nat),
                            decreases num_rows - i,
                        {
                            assert(cv[i as int] == col@[i as int]@);
                            if satisfies_exec(pred, &col[i]) {
                                out.push(i);
                            }
                            i = i + 1;
                        }
                        Ok(out)
                    },
                }
            },
        }
    }

    /// The column tested by a simple predicate.
    fn predicate_column(pred: &FilterPredicate) -> (r: &String)
        requires
            !(pred is And || pred is Or || pred is Not),
        ensures
            tested_column(*pred) == Some(r@),
    {
        match pred {
            FilterPredicate::Eq(c, _) => c,
            FilterPredicate::Ne(c, _) => c,
            FilterPredicate::Lt(c, _) => c,
            FilterPredicate::Le(c, _) => c,
            FilterPredicate::Gt(c, _) => c,
            FilterPredicate::Ge(c, _) => c,
            FilterPredicate::IsNull(c) => c,
            FilterPredicate::IsNotNull(c) => c,
            FilterPredicate::In(c, _) => c,
            FilterPredicate::NotIn(c, _) => c,
            FilterPredicate::Contains(c, _) => c,
            FilterPredicate::StartsWith(c, _) => c,
            FilterPredicate::EndsWith(c, _) => c,
            FilterPredicate::Between(c, _, _) => c,
            _ => vstd::pervasive::unreached(),
        }
    }
}

} // verus!
