//! Reshaping a table of named columns: spreading the values of one column
//! over the distinct values of two others (`unstack`, `pivot`,
//! `pivot_table`).

use vstd::prelude::*;

use super::error::DataError;
use super::merge::{lemma_column_pos, lemma_pos_same, lemma_values_same, table_of_view, table_view};
use super::predicate::{column_pos, contains_value, find_column, table_rows};
use super::value::{copy_value, same_value, value_views, Value, ValueModel};
use crate::fmt::{int_text, push_int};
use crate::text::{copy_str, str_eq};

verus! {

/// The values of the first column named `name`.
pub open spec fn column_values(cols: Seq<(String, Vec<Value>)>, name: Seq<char>) -> Seq<ValueModel> {
    value_views(cols[column_pos(cols, name)].1@)
}

/// The distinct values among the first `n` of a column, in the order they
/// first occur.
pub open spec fn distinct_values(col: Seq<ValueModel>, n: nat) -> Seq<ValueModel>
    decreases n,
{
    if n == 0 {
        Seq::empty()
    } else {
        let d = distinct_values(col, (n - 1) as nat);
        if d.contains(col[n - 1]) {
            d
        } else {
            d.push(col[n - 1])
        }
    }
}

/// The values, in row order, of the first `n` rows whose index value is
/// `r` and whose column value is `c`.
pub open spec fn cell_values(
    idx: Seq<ValueModel>,
    cs: Seq<ValueModel>,
    vals: Seq<ValueModel>,
    r: ValueModel,
    c: ValueModel,
    n: nat,
) -> Seq<ValueModel>
    decreases n,
{
    if n == 0 {
        Seq::empty()
    } else {
        let prev = cell_values(idx, cs, vals, r, c, (n - 1) as nat);
        if idx[n - 1] == r && cs[n - 1] == c {
            prev.push(vals[n - 1])
        } else {
            prev
        }
    }
}

/// The name of the column a value becomes: a string as itself, any other
/// value as its key text (`null`, `true`, `false`, or the integer).
pub open spec fn header(v: ValueModel) -> Seq<char> {
    match v {
        ValueModel::Str(s) => s,
        ValueModel::Null => "null"@,
        ValueModel::Bool(b) => if b {
            "true"@
        } else {
            "false"@
        },
        ValueModel::Int(i) => int_text(i as int),
    }
}

/// The value of a cell of an unstacked table: the last value that falls in
/// it, or null.
pub open spec fn last_or_null(vs: Seq<ValueModel>) -> ValueModel {
    if vs.len() == 0 {
        ValueModel::Null
    } else {
        vs.last()
    }
}

/// Aggregations whose results are floating-point numbers, which this
/// library does not compute.
pub open spec fn float_aggregation(agg: Seq<char>) -> bool {
    agg == "sum"@ || agg == "mean"@ || agg == "min"@ || agg == "max"@
}

/// The value of a cell of a pivot table: null when no value falls in it;
/// else `count` counts the values, `last` takes the last, and `first` or
/// any other name takes the first.
pub open spec fn aggregate(agg: Seq<char>, vs: Seq<ValueModel>) -> ValueModel {
    if vs.len() == 0 {
        ValueModel::Null
    } else if agg == "count"@ {
        ValueModel::Int(vs.len() as i64)
    } else if agg == "last"@ {
        vs.last()
    } else {
        vs[0]
    }
}

/// The first of the index, column and value columns the table lacks.
pub open spec fn first_missing_of(cols: Seq<(String, Vec<Value>)>, a: Seq<char>, b: Seq<char>, c: Seq<char>) -> Option<Seq<char>> {
    if column_pos(cols, a) < 0 {
        Some(a)
    } else if column_pos(cols, b) < 0 {
        Some(b)
    } else if column_pos(cols, c) < 0 {
        Some(c)
    } else {
        None
    }
}

/// A table of `n` rows reshaped: one row per distinct value of the index
/// column, in order of first occurrence, in a column named as the index
/// column; then one column per distinct value of the column column, in
/// order of first occurrence and named by [`header`], whose cell for an
/// index value holds `cell` of the values that fall in it. Or the first of
/// the three columns the table lacks.
pub open spec fn reshaped(
    cols: Seq<(String, Vec<Value>)>,
    n: nat,
    index: Seq<char>,
    column: Seq<char>,
    value: Seq<char>,
    cell: spec_fn(Seq<ValueModel>) -> ValueModel,
) -> Result<Seq<(Seq<char>, Seq<ValueModel>)>, Seq<char>> {
    match first_missing_of(cols, index, column, value) {
        Some(m) => Err(m),
        None => {
            let iv = column_values(cols, index);
            let cv = column_values(cols, column);
            let vv = column_values(cols, value);
            let rows = distinct_values(iv, n);
            let heads = distinct_values(cv, n);
            Ok(
                seq![(index, rows)] + Seq::new(
                    heads.len(),
                    |c: int| (header(heads[c]), Seq::new(rows.len(), |r: int| cell(cell_values(iv, cv, vv, rows[r], heads[c], n)))),
                ),
            )
        },
    }
}

/// The cell rule of `unstack` and `pivot`.
pub open spec fn unstack_cell() -> spec_fn(Seq<ValueModel>) -> ValueModel {
    |vs: Seq<ValueModel>| last_or_null(vs)
}

/// The cell rule of `pivot_table` with the given aggregation.
pub open spec fn pivot_cell(agg: Seq<char>) -> spec_fn(Seq<ValueModel>) -> ValueModel {
    |vs: Seq<ValueModel>| aggregate(agg, vs)
}

/// The distinct values among the first `n` of a column.
fn distinct(col: &Vec<Value>, n: usize) -> (r: Vec<Value>)
    requires
        n <= col@.len(),
    ensures
        value_views(r@) == distinct_values(value_views(col@), n as nat),
{
    let ghost cv = value_views(col@);
    let mut out: Vec<Value> = Vec::new();
    let mut i: usize = 0;
    while i < n
        invariant
            i <= n,
            n <= col@.len(),
            cv == value_views(col@),
            value_views(out@) == distinct_values(cv, i as nat),
        decreases n - i,
    {
        if !contains_value(&out, &col[i]) {
            let ghost before = out@;
            out.push(copy_value(&col[i]));
            assert(value_views(out@) =~= value_views(before).push(cv[i as int]));
        }
        i = i + 1;
    }
    out
}

/// The name of the column a value becomes.
pub(crate) fn header_of(v: &Value) -> (r: String)
    ensures
        r@ == header(v@),
{
    match v {
        Value::String(s) => copy_str(s.as_str()),
        Value::Null => copy_str("null"),
        Value::Bool(b) => if *b {
            copy_str("true")
        } else {
            copy_str("false")
        },
        Value::Int(i) => {
            let mut out = String::new();
            push_int(&mut out, *i);
            assert(Seq::<char>::empty() + int_text(*i as int) =~= int_text(*i as int));
            out
        },
    }
}

/// The values that fall in the cell of index value `r` and column value `c`.
fn collect_cell(iv: &Vec<Value>, cv: &Vec<Value>, vv: &Vec<Value>, r: &Value, c: &Value, n: usize) -> (out: Vec<Value>)
    requires
        iv@.len() == n,
        cv@.len() == n,
        vv@.len() == n,
    ensures
        value_views(out@) == cell_values(value_views(iv@), value_views(cv@), value_views(vv@), r@, c@, n as nat),
{
    let ghost (a, b, d) = (value_views(iv@), value_views(cv@), value_views(vv@));
    let mut out: Vec<Value> = Vec::new();
    let mut i: usize = 0;
    while i < n
        invariant
            i <= n,
            iv@.len() == n,
            cv@.len() == n,
            vv@.len() == n,
            a == value_views(iv@),
            b == value_views(cv@),
            d == value_views(vv@),
            value_views(out@) == cell_values(a, b, d, r@, c@, i as nat),
        decreases n - i,
    {
        if same_value(&iv[i], r) && same_value(&cv[i], c) {
            let ghost before = out@;
            out.push(copy_value(&vv[i]));
            assert(value_views(out@) =~= value_views(before).push(d[i as int]));
        }
        i = i + 1;
    }
    out
}

/// A cell's value by the rule: `None` for the last value or null, `Some`
/// for an aggregation.
fn cell_value(vs: &Vec<Value>, agg: Option<&str>) -> (r: Value)
    requires
        agg matches Some(a) ==> (vs@.len() == 0 || !float_aggregation(a@)),
    ensures
        r@ == match agg {
            None => (unstack_cell())(value_views(vs@)),
            Some(a) => (pivot_cell(a@))(value_views(vs@)),
        },
{
    let ghost w = value_views(vs@);
    if vs.len() == 0 {
        return Value::Null;
    }
    match agg {
        None => copy_value(&vs[vs.len() - 1]),
        Some(a) => {
            if str_eq(a, "count") {
                Value::Int(vs.len() as i64)
            } else if str_eq(a, "last") {
                copy_value(&vs[vs.len() - 1])
            } else {
                copy_value(&vs[0])
            }
        },
    }
}

/// The column of a table with the given name, as its position.
fn find_named(cols: &Vec<(String, Vec<Value>)>, name: &str) -> (r: Option<usize>)
    ensures
        match r {
            Some(k) => column_pos(cols@, name@) == k && k < cols@.len(),
            None => column_pos(cols@, name@) < 0,
        },
{
    let s = copy_str(name);
    find_column(cols, &s)
}

/// The cell rule chosen by `agg`.
pub open spec fn rule_of(agg: Option<Seq<char>>) -> spec_fn(Seq<ValueModel>) -> ValueModel {
    match agg {
        None => unstack_cell(),
        Some(a) => pivot_cell(a),
    }
}

/// Reshape a table by the cell rule chosen by `agg`.
fn reshape_with(
    cols: &Vec<(String, Vec<Value>)>,
    n: usize,
    index: &str,
    column: &str,
    value: &str,
    agg: Option<&str>,
) -> (r: Result<Vec<(String, Vec<Value>)>, DataError>)
    requires
        table_rows(cols@, n as nat),
        agg matches Some(a) ==> (n == 0 || !float_aggregation(a@)),
    ensures
        match reshaped(
            cols@,
            n as nat,
            index@,
            column@,
            value@,
            rule_of(
                match agg {
                    Some(a) => Some(a@),
                    None => None,
                },
            ),
        ) {
            Ok(t) => r matches Ok(out) && table_view(out@) == t,
            Err(m) => r matches Err(DataError::ColumnNotFound(s)) && s@ == m,
        },
{
    let ki = match find_named(cols, index) {
        Some(k) => k,
        None => {
            return Err(DataError::ColumnNotFound(copy_str(index)));
        },
    };
    let kc = match find_named(cols, column) {
        Some(k) => k,
        None => {
            return Err(DataError::ColumnNotFound(copy_str(column)));
        },
    };
    let kv = match find_named(cols, value) {
        Some(k) => k,
        None => {
            return Err(DataError::ColumnNotFound(copy_str(value)));
        },
    };
    let iv = &cols[ki].1;
    let cv = &cols[kc].1;
    let vv = &cols[kv].1;
    assert(iv@.len() == n && cv@.len() == n && vv@.len() == n) by {
        assert(cols@[ki as int].1@.len() == n);
        assert(cols@[kc as int].1@.len() == n);
        assert(cols@[kv as int].1@.len() == n);
    }
    let ghost (a, b, d) = (value_views(iv@), value_views(cv@), value_views(vv@));
    let ghost rule = rule_of(
        match agg {
            Some(x) => Some(x@),
            None => None,
        },
    );
    let rows = distinct(iv, n);
    let heads = distinct(cv, n);
    let ghost rv = value_views(rows@);
    let ghost hv = value_views(heads@);
    let ghost expected = seq![(index@, rv)] + Seq::new(
        hv.len(),
        |c: int| (header(hv[c]), Seq::new(rv.len(), |r: int| rule(cell_values(a, b, d, rv[r], hv[c], n as nat)))),
    );
    let mut out: Vec<(String, Vec<Value>)> = Vec::new();
    let mut index_values: Vec<Value> = Vec::new();
    let mut r: usize = 0;
    while r < rows.len()
        invariant
            r <= rows@.len(),
            rv == value_views(rows@),
            value_views(index_values@) == rv.take(r as int),
        decreases rows.len() - r,
    {
        let ghost before = index_values@;
        index_values.push(copy_value(&rows[r]));
        assert(value_views(index_values@) =~= value_views(before).push(rv[r as int]));
        assert(rv.take(r + 1) =~= rv.take(r as int).push(rv[r as int]));
        r = r + 1;
    }
    assert(rv.take(rows@.len() as int) =~= rv);
    out.push((copy_str(index), index_values));
    assert(table_view(out@) =~= expected.take(1));
    let mut c: usize = 0;
    while c < heads.len()
        invariant
            c <= heads@.len(),
            iv@.len() == n,
            cv@.len() == n,
            vv@.len() == n,
            a == value_views(iv@),
            b == value_views(cv@),
            d == value_views(vv@),
            rv == value_views(rows@),
            hv == value_views(heads@),
            agg matches Some(x) ==> (n == 0 || !float_aggregation(x@)),
            rule == rule_of(
                match agg {
                    Some(x) => Some(x@),
                    None => None,
                },
            ),
            expected == seq![(index@, rv)] + Seq::new(
                hv.len(),
                |c: int| (header(hv[c]), Seq::new(rv.len(), |r: int| rule(cell_values(a, b, d, rv[r], hv[c], n as nat)))),
            ),
            table_view(out@) == expected.take(c + 1),
        decreases heads.len() - c,
    {
        let name = header_of(&heads[c]);
        let mut cells: Vec<Value> = Vec::new();
        let mut r: usize = 0;
        while r < rows.len()
            invariant
                r <= rows@.len(),
                c < heads@.len(),
                iv@.len() == n,
                cv@.len() == n,
                vv@.len() == n,
                a == value_views(iv@),
                b == value_views(cv@),
                d == value_views(vv@),
                rv == value_views(rows@),
                hv == value_views(heads@),
                agg matches Some(x) ==> (n == 0 || !float_aggregation(x@)),
                rule == rule_of(
                    match agg {
                        Some(x) => Some(x@),
                        None => None,
                    },
                ),
                cells@.len() == r,
                forall|q: int| 0 <= q < r ==> (#[trigger] cells@[q])@ == rule(cell_values(a, b, d, rv[q], hv[c as int], n as nat)),
            decreases rows.len() - r,
        {
            let vs = collect_cell(iv, cv, vv, &rows[r], &heads[c], n);
            proof {
                lemma_cell_values_len(a, b, d, rv[r as int], hv[c as int], n as nat);
            }
            cells.push(cell_value(&vs, agg));
            r = r + 1;
        }
        let ghost before = out@;
        out.push((name, cells));
        assert(value_views(cells@) =~= Seq::new(rv.len(), |r: int| rule(cell_values(a, b, d, rv[r], hv[c as int], n as nat))));
        assert(table_view(out@) =~= table_view(before).push(expected[c + 1]));
        assert(expected.take(c + 2) =~= expected.take(c + 1).push(expected[c + 1]));
        c = c + 1;
    }
    assert(expected.take(heads@.len() as int + 1) =~= expected);
    Ok(out)
}

/// The values falling in a cell number at most the rows looked at.
proof fn lemma_cell_values_len(
    idx: Seq<ValueModel>,
    cs: Seq<ValueModel>,
    vals: Seq<ValueModel>,
    r: ValueModel,
    c: ValueModel,
    n: nat,
)
    ensures
        cell_values(idx, cs, vals, r, c, n).len() <= n,
    decreases n,
{
    if n > 0 {
        lemma_cell_values_len(idx, cs, vals, r, c, (n - 1) as nat);
    }
}

/// Spread the values of `value_col` over a table with one row per distinct
/// value of `index_col` and one column per distinct value of `column_col`;
/// a cell holds the last value that falls in it, or null; see
/// [`reshaped`]. A column the table lacks fails with `ColumnNotFound`,
/// looking for the index, column and value columns in turn.
pub fn unstack(cols: &Vec<(String, Vec<Value>)>, num_rows: usize, index_col: &str, column_col: &str, value_col: &str) -> (r: Result<
    Vec<(String, Vec<Value>)>,
    DataError,
>)
    requires
        table_rows(cols@, num_rows as nat),
    ensures
        match reshaped(cols@, num_rows as nat, index_col@, column_col@, value_col@, unstack_cell()) {
            Ok(t) => r matches Ok(out) && table_view(out@) == t,
            Err(m) => r matches Err(DataError::ColumnNotFound(s)) && s@ == m,
        },
{
    reshape_with(cols, num_rows, index_col, column_col, value_col, None)
}

/// A pivot of a table: the same as [`unstack`] with the named index,
/// columns and values.
pub fn pivot(cols: &Vec<(String, Vec<Value>)>, num_rows: usize, index: &str, columns: &str, values: &str) -> (r: Result<
    Vec<(String, Vec<Value>)>,
    DataError,
>)
    requires
        table_rows(cols@, num_rows as nat),
    ensures
        match reshaped(cols@, num_rows as nat, index@, columns@, values@, unstack_cell()) {
            Ok(t) => r matches Ok(out) && table_view(out@) == t,
            Err(m) => r matches Err(DataError::ColumnNotFound(s)) && s@ == m,
        },
{
    unstack(cols, num_rows, index, columns, values)
}

/// A pivot table: as [`unstack`], but a cell aggregates all the values that
/// fall in it, by [`aggregate`]. The aggregations `sum`, `mean`, `min` and
/// `max` give floating-point numbers and are left to the caller.
pub fn pivot_table(
    cols: &Vec<(String, Vec<Value>)>,
    num_rows: usize,
    index: &str,
    columns: &str,
    values: &str,
    aggfunc: &str,
) -> (r: Result<Vec<(String, Vec<Value>)>, DataError>)
    requires
        table_rows(cols@, num_rows as nat),
        num_rows == 0 || !float_aggregation(aggfunc@),
    ensures
        match reshaped(cols@, num_rows as nat, index@, columns@, values@, pivot_cell(aggfunc@)) {
            Ok(t) => r matches Ok(out) && table_view(out@) == t,
            Err(m) => r matches Err(DataError::ColumnNotFound(s)) && s@ == m,
        },
{
    reshape_with(cols, num_rows, index, columns, values, Some(aggfunc))
}


/// A table of the given content reshaped; see [`reshaped`], which depends
/// on the content alone ([`lemma_reshaped_view`]).
pub open spec fn reshaped_view(
    tv: Seq<(Seq<char>, Seq<ValueModel>)>,
    n: nat,
    index: Seq<char>,
    column: Seq<char>,
    value: Seq<char>,
    cell: spec_fn(Seq<ValueModel>) -> ValueModel,
) -> Result<Seq<(Seq<char>, Seq<ValueModel>)>, Seq<char>> {
    reshaped(table_of_view(tv), n, index, column, value, cell)
}

/// Reshaping depends on the table's content alone.
pub proof fn lemma_reshaped_view(
    cols: Seq<(String, Vec<Value>)>,
    n: nat,
    index: Seq<char>,
    column: Seq<char>,
    value: Seq<char>,
    cell: spec_fn(Seq<ValueModel>) -> ValueModel,
)
    ensures
        reshaped_view(table_view(cols), n, index, column, value, cell) == reshaped(cols, n, index, column, value, cell),
{
    let tv = table_view(cols);
    assert(table_view(cols) == tv);
    let c2 = table_of_view(tv);
    assert(table_view(c2) == tv);
    lemma_pos_same(cols, c2, index);
    lemma_pos_same(cols, c2, column);
    lemma_pos_same(cols, c2, value);
    if first_missing_of(cols, index, column, value) is None {
        lemma_column_pos(cols, index);
        lemma_column_pos(cols, column);
        lemma_column_pos(cols, value);
        lemma_values_same(cols, c2, column_pos(cols, index));
        lemma_values_same(cols, c2, column_pos(cols, column));
        lemma_values_same(cols, c2, column_pos(cols, value));
    }
}

} // verus!
