//! A table of named columns of equal length.

use vstd::prelude::*;

use super::error::DataError;
use super::series::{
    expected_name, filled, first_misfit, fits, inferred_type, kind_name, lemma_fitting_values, null_total, pick, type_of,
    Series, SeriesType,
};
use super::value::{copy_value, same_value, value_views, Value, ValueModel};
use crate::fmt::{dec, push_dec};
use crate::text::{copy_str, str_eq};

verus! {

/// A table of named columns, all as long as the table.
#[derive(Debug)]
pub struct DataFrame {
    columns: Vec<Series>,
    rows: usize,
}

/// The names of the columns.
pub open spec fn names_of(cols: Seq<Series>) -> Seq<Seq<char>> {
    cols.map_values(|s: Series| s.name_view())
}

/// Position of the first column named `name`, or -1.
pub open spec fn first_named(cols: Seq<Series>, name: Seq<char>) -> int
    decreases cols.len(),
{
    if cols.len() == 0 {
        -1
    } else if first_named(cols.drop_last(), name) >= 0 {
        first_named(cols.drop_last(), name)
    } else if cols.last().name_view() == name {
        cols.len() - 1
    } else {
        -1
    }
}

/// Position of the first column whose length differs from the first's, or
/// -1.
pub open spec fn first_uneven(cols: Seq<Series>) -> int
    decreases cols.len(),
{
    if cols.len() <= 1 {
        -1
    } else if first_uneven(cols.drop_last()) >= 0 {
        first_uneven(cols.drop_last())
    } else if cols.last().cells().len() != cols[0].cells().len() {
        cols.len() - 1
    } else {
        -1
    }
}

/// The message for a column whose length differs from the first's.
pub open spec fn uneven_message(name: Seq<char>, len: nat, expected: nat) -> Seq<char> {
    "column '"@ + name + "' has "@ + dec(len) + " rows, expected "@ + dec(expected)
}

/// Every column is `h` values long.
pub open spec fn rect(cols: Seq<Series>, h: nat) -> bool {
    forall|k: int| 0 <= k < cols.len() ==> (#[trigger] cols[k]).cells().len() == h
}

/// Two columns are the same: name, type and values.
pub open spec fn same_series(a: Series, b: Series) -> bool {
    a.name_view() == b.name_view() && a.kind() == b.kind() && a.cells() == b.cells()
}

/// Two lists of columns are the same, column by column.
pub open spec fn same_columns(a: Seq<Series>, b: Seq<Series>) -> bool {
    a.len() == b.len() && forall|k: int| 0 <= k < a.len() ==> same_series(#[trigger] a[k], b[k])
}

impl DataFrame {
    /// Every column is as long as the table.
    #[verifier::type_invariant]
    spec fn rectangular(self) -> bool {
        forall|k: int| 0 <= k < self.columns@.len() ==> (#[trigger] self.columns@[k]).cells().len() == self.rows
    }

    /// The table's columns.
    pub closed spec fn series(self) -> Seq<Series> {
        self.columns@
    }

    /// The number of rows.
    pub closed spec fn height(self) -> nat {
        self.rows as nat
    }
}

/// A length found among the first `k` columns to differ is the first to.
proof fn lemma_uneven_prefix(cols: Seq<Series>, k: int)
    requires
        1 <= k <= cols.len(),
        first_uneven(cols.take(k)) >= 0,
    ensures
        first_uneven(cols) == first_uneven(cols.take(k)),
    decreases cols.len() - k,
{
    if k < cols.len() {
        assert(cols.take(k + 1).drop_last() =~= cols.take(k));
        assert(cols.take(k + 1)[0] == cols[0]);
        lemma_uneven_prefix(cols, k + 1);
    } else {
        assert(cols.take(k) =~= cols);
    }
}

/// Without an uneven column every column is as long as the first.
proof fn lemma_even(cols: Seq<Series>)
    requires
        cols.len() >= 1,
        first_uneven(cols) < 0,
    ensures
        rect(cols, cols[0].cells().len()),
    decreases cols.len(),
{
    if cols.len() > 1 {
        let d = cols.drop_last();
        assert(d[0] == cols[0]);
        lemma_even(d);
        assert forall|k: int| 0 <= k < cols.len() implies (#[trigger] cols[k]).cells().len() == cols[0].cells().len() by {
            if k < cols.len() - 1 {
                assert(cols[k] == d[k]);
            }
        }
    }
}

/// A column found among the first `k` is the first of that name.
proof fn lemma_named_prefix(cols: Seq<Series>, name: Seq<char>, k: int)
    requires
        0 <= k <= cols.len(),
        first_named(cols.take(k), name) >= 0,
    ensures
        first_named(cols, name) == first_named(cols.take(k), name),
    decreases cols.len() - k,
{
    if k < cols.len() {
        assert(cols.take(k + 1).drop_last() =~= cols.take(k));
        lemma_named_prefix(cols, name, k + 1);
    } else {
        assert(cols.take(k) =~= cols);
    }
}

/// What `first_named` finds: a column of that name, or none exists.
pub proof fn lemma_first_named(cols: Seq<Series>, name: Seq<char>)
    ensures
        -1 <= first_named(cols, name) < cols.len(),
        first_named(cols, name) >= 0 ==> cols[first_named(cols, name)].name_view() == name,
        first_named(cols, name) < 0 ==> forall|k: int| 0 <= k < cols.len() ==> (#[trigger] cols[k]).name_view() != name,
    decreases cols.len(),
{
    if cols.len() > 0 {
        lemma_first_named(cols.drop_last(), name);
        if first_named(cols, name) < 0 {
            assert forall|k: int| 0 <= k < cols.len() implies (#[trigger] cols[k]).name_view() != name by {
                if k < cols.len() - 1 {
                    assert(cols[k] == cols.drop_last()[k]);
                }
            }
        }
    }
}

/// The position of the first column named `name`.
pub(crate) fn find_series(cols: &Vec<Series>, name: &str) -> (r: Option<usize>)
    ensures
        match r {
            Some(k) => first_named(cols@, name@) == k && k < cols@.len(),
            None => first_named(cols@, name@) < 0,
        },
{
    let mut i: usize = 0;
    while i < cols.len()
        invariant
            i <= cols@.len(),
            first_named(cols@.take(i as int), name@) < 0,
        decreases cols.len() - i,
    {
        assert(cols@.take(i + 1).drop_last() =~= cols@.take(i as int));
        if str_eq(cols[i].name(), name) {
            proof {
                lemma_named_prefix(cols@, name@, (i + 1) as int);
                assert(cols@.take(i + 1).last() == cols@[i as int]);
            }
            return Some(i);
        }
        i = i + 1;
    }
    assert(cols@.take(cols@.len() as int) =~= cols@);
    None
}

/// Copies of a list of columns.
pub(crate) fn copy_columns(cols: &Vec<Series>) -> (r: Vec<Series>)
    ensures
        same_columns(r@, cols@),
{
    let mut out: Vec<Series> = Vec::new();
    let mut i: usize = 0;
    while i < cols.len()
        invariant
            i <= cols@.len(),
            out@.len() == i,
            forall|k: int| 0 <= k < i ==> same_series(#[trigger] out@[k], cols@[k]),
        decreases cols.len() - i,
    {
        out.push(cols[i].clone());
        i = i + 1;
    }
    out
}

impl Clone for DataFrame {
    fn clone(&self) -> (r: Self)
        ensures
            same_columns(r.series(), self.series()),
            r.height() == self.height(),
    {
        proof {
            use_type_invariant(self);
        }
        let cols = copy_columns(&self.columns);
        assert forall|k: int| 0 <= k < cols@.len() implies (#[trigger] cols@[k]).cells().len() == self.rows by {
            assert(same_series(cols@[k], self.columns@[k]));
        }
        DataFrame::make(cols, self.rows)
    }
}

impl DataFrame {
    /// A table of the given columns, all `rows` long.
    pub(crate) fn make(columns: Vec<Series>, rows: usize) -> (r: Self)
        requires
            rect(columns@, rows as nat),
        ensures
            r.series() == columns@,
            r.height() == rows,
    {
        DataFrame { columns, rows }
    }

    /// The table's columns, each as long as the table.
    pub(crate) fn series_ref(&self) -> (r: &Vec<Series>)
        ensures
            r@ == self.series(),
            rect(r@, self.height()),
    {
        proof {
            use_type_invariant(self);
        }
        &self.columns
    }

    /// A table without rows whose columns have the given names and types,
    /// in order.
    pub fn empty(schema: Vec<(String, SeriesType)>) -> (r: Self)
        ensures
            r.height() == 0,
            r.series().len() == schema@.len(),
            forall|k: int|
                0 <= k < schema@.len() ==> (#[trigger] r.series()[k]).name_view() == schema@[k].0@
                    && r.series()[k].kind() == schema@[k].1 && r.series()[k].cells().len() == 0,
    {
        let ghost all = schema@;
        assert(all.len() == schema.len());
        let mut rest = schema;
        let mut cols: Vec<Series> = Vec::new();
        let mut i: usize = 0;
        while rest.len() > 0
            invariant
                i + rest@.len() == all.len(),
                all.len() <= usize::MAX,
                rest@ == all.skip(i as int),
                cols@.len() == i,
                forall|k: int|
                    0 <= k < i ==> (#[trigger] cols@[k]).name_view() == all[k].0@ && cols@[k].kind() == all[k].1
                        && cols@[k].cells().len() == 0,
            decreases rest.len(),
        {
            assert(all.skip(i as int).remove(0) =~= all.skip(i + 1));
            assert(all.skip(i as int)[0] == all[i as int]);
            let (name, kind) = rest.remove(0);
            let values: Vec<Value> = Vec::new();
            cols.push(Series::assemble(name, kind, values));
            i = i + 1;
        }
        DataFrame::make(cols, 0)
    }

    /// A table of the given columns. They must be as long as each other
    /// (`SchemaMismatch` names the first that is not as long as the first);
    /// no columns make an empty table.
    pub fn from_series(columns: Vec<Series>) -> (r: Result<Self, DataError>)
        ensures
            columns@.len() == 0 ==> (r matches Ok(df) && df.series().len() == 0 && df.height() == 0),
            columns@.len() > 0 && first_uneven(columns@) >= 0 ==> (r matches Err(DataError::SchemaMismatch(m)) && m@
                == uneven_message(
                columns@[first_uneven(columns@)].name_view(),
                columns@[first_uneven(columns@)].cells().len(),
                columns@[0].cells().len(),
            )),
            columns@.len() > 0 && first_uneven(columns@) < 0 ==> (r matches Ok(df) && df.series() == columns@
                && df.height() == columns@[0].cells().len()),
    {
        if columns.len() == 0 {
            return Ok(DataFrame::make(columns, 0));
        }
        let len = columns[0].len();
        let mut i: usize = 1;
        while i < columns.len()
            invariant
                1 <= i <= columns@.len(),
                len == columns@[0].cells().len(),
                first_uneven(columns@.take(i as int)) < 0,
            decreases columns.len() - i,
        {
            assert(columns@.take(i + 1).drop_last() =~= columns@.take(i as int));
            assert(columns@.take(i + 1)[0] == columns@[0]);
            if columns[i].len() != len {
                proof {
                    lemma_uneven_prefix(columns@, (i + 1) as int);
                }
                let mut m = copy_str("column '");
                m.append(columns[i].name());
                m.append("' has ");
                push_dec(&mut m, columns[i].len() as u128);
                m.append(" rows, expected ");
                push_dec(&mut m, len as u128);
                assert(m@ =~= uneven_message(columns@[i as int].name_view(), columns@[i as int].cells().len(), len as nat));
                return Err(DataError::SchemaMismatch(m));
            }
            i = i + 1;
        }
        assert(columns@.take(columns@.len() as int) =~= columns@);
        proof {
            lemma_even(columns@);
        }
        Ok(DataFrame::make(columns, len))
    }

    /// The names of the columns, in order.
    pub fn columns(&self) -> (r: Vec<String>)
        ensures
            r@.map_values(|s: String| s@) == names_of(self.series()),
    {
        let mut out: Vec<String> = Vec::new();
        let mut i: usize = 0;
        while i < self.columns.len()
            invariant
                i <= self.columns@.len(),
                out@.len() == i,
                forall|k: int| 0 <= k < i ==> (#[trigger] out@[k])@ == self.columns@[k].name_view(),
            decreases self.columns.len() - i,
        {
            out.push(self.columns[i].name_string());
            i = i + 1;
        }
        assert(out@.map_values(|s: String| s@) =~= names_of(self.series()));
        out
    }

    /// The number of columns.
    pub fn num_columns(&self) -> (r: usize)
        ensures
            r == self.series().len(),
    {
        self.columns.len()
    }

    /// The number of rows.
    pub fn num_rows(&self) -> (r: usize)
        ensures
            r == self.height(),
    {
        self.rows
    }

    /// Whether the table has no rows.
    pub fn is_empty(&self) -> (r: bool)
        ensures
            r == (self.height() == 0),
    {
        self.rows == 0
    }

    /// The first column named `name`; `ColumnNotFound` if there is none.
    pub fn column(&self, name: &str) -> (r: Result<Series, DataError>)
        ensures
            first_named(self.series(), name@) >= 0 ==> (r matches Ok(s) && same_series(
                s,
                self.series()[first_named(self.series(), name@)],
            )),
            first_named(self.series(), name@) < 0 ==> (r matches Err(DataError::ColumnNotFound(c)) && c@ == name@),
    {
        match find_series(&self.columns, name) {
            Some(k) => Ok(self.columns[k].clone()),
            None => Err(DataError::ColumnNotFound(copy_str(name))),
        }
    }

    /// The column at `index`; `InvalidColumnIndex` past the last.
    pub fn column_by_index(&self, index: usize) -> (r: Result<Series, DataError>)
        ensures
            index < self.series().len() ==> (r matches Ok(s) && same_series(s, self.series()[index as int])),
            index >= self.series().len() ==> (r matches Err(DataError::InvalidColumnIndex(i)) && i == index),
    {
        if index >= self.columns.len() {
            return Err(DataError::InvalidColumnIndex(index));
        }
        Ok(self.columns[index].clone())
    }
}

/// Each column cut to the values from `from` to `to`.
pub open spec fn sliced_columns(a: Seq<Series>, b: Seq<Series>, from: int, to: int) -> bool {
    a.len() == b.len() && forall|k: int|
        0 <= k < a.len() ==> (#[trigger] a[k]).name_view() == b[k].name_view() && a[k].kind() == b[k].kind()
            && a[k].cells() == b[k].cells().subrange(from, to)
}

/// Each column rebuilt from its values at the given positions.
pub open spec fn picked_columns(a: Seq<Series>, b: Seq<Series>, idx: Seq<usize>) -> bool {
    a.len() == b.len() && forall|k: int|
        0 <= k < a.len() ==> (#[trigger] a[k]).name_view() == b[k].name_view() && a[k].kind() == inferred_type(
            pick(b[k].cells(), idx),
        ) && a[k].cells() == pick(b[k].cells(), idx)
}

/// Position of the first index not below `n`, or -1.
pub open spec fn first_out_of_range(idx: Seq<usize>, n: nat) -> int
    decreases idx.len(),
{
    if idx.len() == 0 {
        -1
    } else if first_out_of_range(idx.drop_last(), n) >= 0 {
        first_out_of_range(idx.drop_last(), n)
    } else if idx.last() >= n {
        idx.len() - 1
    } else {
        -1
    }
}

/// The columns named, each the first of its name, and whether all exist:
/// the first name missing otherwise.
pub open spec fn first_missing_name(cols: Seq<Series>, names: Seq<Seq<char>>) -> int
    decreases names.len(),
{
    if names.len() == 0 {
        -1
    } else if first_missing_name(cols, names.drop_last()) >= 0 {
        first_missing_name(cols, names.drop_last())
    } else if first_named(cols, names.last()) < 0 {
        names.len() - 1
    } else {
        -1
    }
}

/// The columns a selection of names gives: for each name the first column
/// of that name.
pub open spec fn selected(a: Seq<Series>, cols: Seq<Series>, names: Seq<Seq<char>>) -> bool {
    a.len() == names.len() && forall|k: int|
        0 <= k < a.len() ==> same_series(#[trigger] a[k], cols[first_named(cols, names[k])])
}

/// The names of the columns not among `names`, in order.
pub open spec fn kept_names(cols: Seq<Series>, names: Seq<Seq<char>>) -> Seq<Seq<char>>
    decreases cols.len(),
{
    if cols.len() == 0 {
        Seq::empty()
    } else if names.contains(cols.last().name_view()) {
        kept_names(cols.drop_last(), names)
    } else {
        kept_names(cols.drop_last(), names).push(cols.last().name_view())
    }
}

/// An index found out of range among the first `k` is the first of all.
proof fn lemma_out_of_range_prefix(idx: Seq<usize>, n: nat, k: int)
    requires
        0 <= k <= idx.len(),
        first_out_of_range(idx.take(k), n) >= 0,
    ensures
        first_out_of_range(idx, n) == first_out_of_range(idx.take(k), n),
    decreases idx.len() - k,
{
    if k < idx.len() {
        assert(idx.take(k + 1).drop_last() =~= idx.take(k));
        lemma_out_of_range_prefix(idx, n, k + 1);
    } else {
        assert(idx.take(k) =~= idx);
    }
}

/// Without an index out of range every index is below `n`.
proof fn lemma_in_range(idx: Seq<usize>, n: nat)
    requires
        first_out_of_range(idx, n) < 0,
    ensures
        forall|p: int| 0 <= p < idx.len() ==> (#[trigger] idx[p] as nat) < n,
    decreases idx.len(),
{
    if idx.len() > 0 {
        lemma_in_range(idx.drop_last(), n);
        assert forall|p: int| 0 <= p < idx.len() implies (#[trigger] idx[p] as nat) < n by {
            if p < idx.len() - 1 {
                assert(idx[p] == idx.drop_last()[p]);
            }
        }
    }
}

/// A name found missing among the first `k` is the first missing of all.
proof fn lemma_missing_name_prefix(cols: Seq<Series>, names: Seq<Seq<char>>, k: int)
    requires
        0 <= k <= names.len(),
        first_missing_name(cols, names.take(k)) >= 0,
    ensures
        first_missing_name(cols, names) == first_missing_name(cols, names.take(k)),
    decreases names.len() - k,
{
    if k < names.len() {
        assert(names.take(k + 1).drop_last() =~= names.take(k));
        lemma_missing_name_prefix(cols, names, k + 1);
    } else {
        assert(names.take(k) =~= names);
    }
}

impl DataFrame {
    /// Each column cut to the rows from `from` to `to`.
    fn slice_all(&self, from: usize, to: usize) -> (r: Self)
        requires
            from <= to <= self.height(),
        ensures
            sliced_columns(r.series(), self.series(), from as int, to as int),
            r.height() == to - from,
    {
        proof {
            use_type_invariant(self);
        }
        let mut out: Vec<Series> = Vec::new();
        let mut k: usize = 0;
        while k < self.columns.len()
            invariant
                k <= self.columns@.len(),
                from <= to <= self.rows,
                forall|c: int| 0 <= c < self.columns@.len() ==> (#[trigger] self.columns@[c]).cells().len() == self.rows,
                out@.len() == k,
                forall|c: int|
                    0 <= c < k ==> (#[trigger] out@[c]).name_view() == self.columns@[c].name_view() && out@[c].kind()
                        == self.columns@[c].kind() && out@[c].cells() == self.columns@[c].cells().subrange(
                        from as int,
                        to as int,
                    ),
            decreases self.columns.len() - k,
        {
            assert(self.columns@[k as int].cells().len() == self.rows);
            out.push(self.columns[k].slice_rows(from, to));
            k = k + 1;
        }
        DataFrame::make(out, to - from)
    }

    /// The first `n` rows (all of them if there are fewer).
    pub fn head(&self, n: usize) -> (r: Result<Self, DataError>)
        ensures
            ({
                let m = if n < self.height() {
                    n as nat
                } else {
                    self.height()
                };
                r matches Ok(df) && df.height() == m && sliced_columns(df.series(), self.series(), 0, m as int)
            }),
    {
        let m = if n < self.rows {
            n
        } else {
            self.rows
        };
        Ok(self.slice_all(0, m))
    }

    /// The last `n` rows (all of them if there are fewer).
    pub fn tail(&self, n: usize) -> (r: Result<Self, DataError>)
        ensures
            ({
                let m = if n < self.height() {
                    n as nat
                } else {
                    self.height()
                };
                r matches Ok(df) && df.height() == m && sliced_columns(
                    df.series(),
                    self.series(),
                    self.height() - m,
                    self.height() as int,
                )
            }),
    {
        let m = if n < self.rows {
            n
        } else {
            self.rows
        };
        Ok(self.slice_all(self.rows - m, self.rows))
    }

    /// The first `n` rows: the same as [`DataFrame::head`].
    pub fn take_rows(&self, n: usize) -> (r: Result<Self, DataError>)
        ensures
            ({
                let m = if n < self.height() {
                    n as nat
                } else {
                    self.height()
                };
                r matches Ok(df) && df.height() == m && sliced_columns(df.series(), self.series(), 0, m as int)
            }),
    {
        self.head(n)
    }

    /// The rows at the given positions, in their order, each column rebuilt
    /// with its type inferred from the values picked. No positions give the
    /// table's columns without rows; a position past the last row gives
    /// `OutOfBounds`.
    pub fn filter_by_indices(&self, indices: &[usize]) -> (r: Result<Self, DataError>)
        ensures
            indices@.len() == 0 ==> (r matches Ok(df) && df.height() == 0 && sliced_columns(df.series(), self.series(), 0, 0)),
            indices@.len() > 0 && first_out_of_range(indices@, self.height()) >= 0 ==> (r matches Err(
                DataError::OutOfBounds { index, length },
            ) && index == indices@[first_out_of_range(indices@, self.height())] && length == self.height()),
            indices@.len() > 0 && first_out_of_range(indices@, self.height()) < 0 ==> (r matches Ok(df) && df.height()
                == indices@.len() && picked_columns(df.series(), self.series(), indices@)),
    {
        proof {
            use_type_invariant(self);
        }
        if indices.len() == 0 {
            return Ok(self.slice_all(0, 0));
        }
        let mut i: usize = 0;
        while i < indices.len()
            invariant
                i <= indices@.len(),
                first_out_of_range(indices@.take(i as int), self.rows as nat) < 0,
            decreases indices.len() - i,
        {
            assert(indices@.take(i + 1).drop_last() =~= indices@.take(i as int));
            if indices[i] >= self.rows {
                proof {
                    lemma_out_of_range_prefix(indices@, self.rows as nat, (i + 1) as int);
                }
                return Err(DataError::OutOfBounds { index: indices[i], length: self.rows });
            }
            i = i + 1;
        }
        assert(indices@.take(indices@.len() as int) =~= indices@);
        proof {
            lemma_in_range(indices@, self.rows as nat);
        }
        let mut out: Vec<Series> = Vec::new();
        let mut k: usize = 0;
        while k < self.columns.len()
            invariant
                k <= self.columns@.len(),
                forall|c: int| 0 <= c < self.columns@.len() ==> (#[trigger] self.columns@[c]).cells().len() == self.rows,
                forall|p: int| 0 <= p < indices@.len() ==> (#[trigger] indices@[p] as nat) < self.rows,
                out@.len() == k,
                forall|c: int|
                    0 <= c < k ==> (#[trigger] out@[c]).name_view() == self.columns@[c].name_view() && out@[c].kind()
                        == inferred_type(pick(self.columns@[c].cells(), indices@)) && out@[c].cells() == pick(
                        self.columns@[c].cells(),
                        indices@,
                    ),
            decreases self.columns.len() - k,
        {
            assert(self.columns@[k as int].cells().len() == self.rows);
            out.push(self.columns[k].pick_rows(indices));
            k = k + 1;
        }
        Ok(DataFrame::make(out, indices.len()))
    }

    /// The columns with the given names, each the first of its name, in
    /// the order named; `ColumnNotFound` for the first name missing. No
    /// names give an empty table.
    pub fn select(&self, columns: &[&str]) -> (r: Result<Self, DataError>)
        ensures
            ({
                let names = columns@.map_values(|c: &str| c@);
                let m = first_missing_name(self.series(), names);
                if m >= 0 {
                    r matches Err(DataError::ColumnNotFound(c)) && c@ == names[m]
                } else {
                    r matches Ok(df) && selected(df.series(), self.series(), names) && df.height() == if names.len()
                        == 0 {
                        0
                    } else {
                        self.height()
                    }
                }
            }),
    {
        proof {
            use_type_invariant(self);
        }
        let ghost names = columns@.map_values(|c: &str| c@);
        let mut out: Vec<Series> = Vec::new();
        let mut i: usize = 0;
        while i < columns.len()
            invariant
                i <= columns@.len(),
                names == columns@.map_values(|c: &str| c@),
                forall|c: int| 0 <= c < self.columns@.len() ==> (#[trigger] self.columns@[c]).cells().len() == self.rows,
                first_missing_name(self.columns@, names.take(i as int)) < 0,
                out@.len() == i,
                forall|k: int| 0 <= k < i ==> same_series(#[trigger] out@[k], self.columns@[first_named(self.columns@, names[k])]),
                forall|k: int| 0 <= k < i ==> 0 <= first_named(self.columns@, #[trigger] names[k]) < self.columns@.len(),
            decreases columns.len() - i,
        {
            assert(names.take(i + 1).drop_last() =~= names.take(i as int));
            assert(names[i as int] == columns@[i as int]@);
            match find_series(&self.columns, columns[i]) {
                None => {
                    proof {
                        lemma_missing_name_prefix(self.columns@, names, (i + 1) as int);
                    }
                    return Err(DataError::ColumnNotFound(copy_str(columns[i])));
                },
                Some(k) => {
                    out.push(self.columns[k].clone());
                },
            }
            i = i + 1;
        }
        assert(names.take(names.len() as int) =~= names);
        let h = if columns.len() == 0 {
            0
        } else {
            self.rows
        };
        assert forall|k: int| 0 <= k < out@.len() implies (#[trigger] out@[k]).cells().len() == h by {
            let c = first_named(self.columns@, names[k]);
            assert(self.columns@[c].cells().len() == self.rows);
        }
        Ok(DataFrame::make(out, h))
    }

    /// The columns not named, each replaced by the first column of its
    /// name; `EmptyData` when none would remain.
    pub fn drop(&self, columns: &[&str]) -> (r: Result<Self, DataError>)
        ensures
            ({
                let keep = kept_names(self.series(), columns@.map_values(|c: &str| c@));
                if keep.len() == 0 {
                    r matches Err(DataError::EmptyData)
                } else {
                    r matches Ok(df) && selected(df.series(), self.series(), keep) && df.height() == self.height()
                }
            }),
    {
        proof {
            use_type_invariant(self);
        }
        let keep = kept_refs(&self.columns, columns);
        if keep.len() == 0 {
            return Err(DataError::EmptyData);
        }
        let ghost kn = keep@.map_values(|c: &str| c@);
        proof {
            assert forall|q: int| 0 <= q < kn.len() implies first_named(self.columns@, #[trigger] kn[q]) >= 0 by {
                assert(kn[q] == keep@[q]@);
            }
            lemma_no_missing_name(self.columns@, kn);
        }
        self.select(keep.as_slice())
    }
}

/// The names of the columns not among `columns`, in order.
pub(crate) fn kept_refs<'a>(cols: &'a Vec<Series>, columns: &[&str]) -> (keep: Vec<&'a str>)
    ensures
        keep@.map_values(|c: &str| c@) == kept_names(cols@, columns@.map_values(|c: &str| c@)),
        forall|q: int| 0 <= q < keep@.len() ==> first_named(cols@, (#[trigger] keep@[q])@) >= 0,
{
    let ghost names = columns@.map_values(|c: &str| c@);
    let mut keep: Vec<&str> = Vec::new();
    let mut k: usize = 0;
    while k < cols.len()
        invariant
            k <= cols@.len(),
            names == columns@.map_values(|c: &str| c@),
            keep@.map_values(|c: &str| c@) == kept_names(cols@.take(k as int), names),
            forall|q: int| 0 <= q < keep@.len() ==> first_named(cols@, (#[trigger] keep@[q])@) >= 0,
        decreases cols.len() - k,
    {
        assert(cols@.take(k + 1).drop_last() =~= cols@.take(k as int));
        assert(cols@.take(k + 1).last() == cols@[k as int]);
        let name = cols[k].name();
        let mut listed = false;
        let mut j: usize = 0;
        while j < columns.len()
            invariant
                j <= columns@.len(),
                names == columns@.map_values(|c: &str| c@),
                listed == names.take(j as int).contains(name@),
            decreases columns.len() - j,
        {
            let ghost t0 = names.take(j as int);
            let ghost t1 = names.take(j + 1);
            assert(t1 =~= t0.push(names[j as int]));
            assert(names[j as int] == columns@[j as int]@);
            proof {
                if t1.contains(name@) {
                    let q = choose|q: int| 0 <= q < t1.len() && t1[q] == name@;
                    if q < j {
                        assert(t0[q] == name@);
                    }
                }
                if t0.contains(name@) {
                    let q = choose|q: int| 0 <= q < t0.len() && t0[q] == name@;
                    assert(t1[q] == name@);
                }
                if names[j as int] == name@ {
                    assert(t1[j as int] == name@);
                }
            }
            if str_eq(columns[j], name) {
                listed = true;
            }
            j = j + 1;
        }
        assert(names.take(columns@.len() as int) =~= names);
        if !listed {
            let ghost before = keep@;
            keep.push(name);
            proof {
                lemma_first_named(cols@, name@);
                assert(keep@.map_values(|c: &str| c@) =~= before.map_values(|c: &str| c@).push(name@));
            }
        }
        k = k + 1;
    }
    assert(cols@.take(cols@.len() as int) =~= cols@);
    keep
}

/// Names that all name a column have none missing.
pub(crate) proof fn lemma_no_missing_name(cols: Seq<Series>, names: Seq<Seq<char>>)
    requires
        forall|q: int| 0 <= q < names.len() ==> first_named(cols, #[trigger] names[q]) >= 0,
    ensures
        first_missing_name(cols, names) < 0,
    decreases names.len(),
{
    if names.len() > 0 {
        let d = names.drop_last();
        assert forall|q: int| 0 <= q < d.len() implies first_named(cols, #[trigger] d[q]) >= 0 by {
            assert(d[q] == names[q]);
        }
        lemma_no_missing_name(cols, d);
        assert(first_named(cols, names[names.len() - 1]) >= 0);
    }
}

/// What filling a column's missing values with `v` leaves: the filled
/// column, or the column as it is when it has no missing values or `v` is
/// not of its type.
pub open spec fn fill_or_keep(s: Series, v: ValueModel) -> Seq<ValueModel> {
    if null_total(s.cells()) == 0 || type_of(v) != Some(s.kind()) {
        s.cells()
    } else {
        filled(s.cells(), v)
    }
}

/// A column renamed where its name is `old`.
pub open spec fn renamed_name(n: Seq<char>, old: Seq<char>, new: Seq<char>) -> Seq<char> {
    if n == old {
        new
    } else {
        n
    }
}

impl DataFrame {
    /// The table's columns, each the first column of its name, the ones
    /// named `old_name` renamed to `new_name`.
    pub fn rename_column(&self, old_name: &str, new_name: &str) -> (r: Result<Self, DataError>)
        ensures
            r matches Ok(df) && df.series().len() == self.series().len() && df.height() == if self.series().len() == 0 {
                0
            } else {
                self.height()
            } && forall|k: int|
                0 <= k < df.series().len() ==> {
                    let src = self.series()[first_named(self.series(), self.series()[k].name_view())];
                    &&& (#[trigger] df.series()[k]).name_view() == renamed_name(
                        self.series()[k].name_view(),
                        old_name@,
                        new_name@,
                    )
                    &&& df.series()[k].kind() == src.kind()
                    &&& df.series()[k].cells() == src.cells()
                },
    {
        proof {
            use_type_invariant(self);
        }
        let mut out: Vec<Series> = Vec::new();
        let mut k: usize = 0;
        while k < self.columns.len()
            invariant
                k <= self.columns@.len(),
                forall|c: int| 0 <= c < self.columns@.len() ==> (#[trigger] self.columns@[c]).cells().len() == self.rows,
                out@.len() == k,
                forall|c: int|
                    0 <= c < k ==> {
                        let src = self.columns@[first_named(self.columns@, self.columns@[c].name_view())];
                        &&& (#[trigger] out@[c]).name_view() == renamed_name(
                            self.columns@[c].name_view(),
                            old_name@,
                            new_name@,
                        )
                        &&& out@[c].kind() == src.kind()
                        &&& out@[c].cells() == src.cells()
                    },
            decreases self.columns.len() - k,
        {
            let name = self.columns[k].name();
            proof {
                lemma_first_named(self.columns@, name@);
            }
            let src = match find_series(&self.columns, name) {
                Some(j) => self.columns[j].clone(),
                None => vstd::pervasive::unreached(),
            };
            let col = if str_eq(name, old_name) {
                src.rename(new_name)
            } else {
                src
            };
            out.push(col);
            k = k + 1;
        }
        let h = if self.columns.len() == 0 {
            0
        } else {
            self.rows
        };
        assert forall|c: int| 0 <= c < out@.len() implies (#[trigger] out@[c]).cells().len() == h by {
            lemma_first_named(self.columns@, self.columns@[c].name_view());
            assert(self.columns@[first_named(self.columns@, self.columns@[c].name_view())].cells().len() == self.rows);
        }
        Ok(DataFrame::make(out, h))
    }

    /// Every column with its missing values filled with `fill_value`, where
    /// it is of the column's type; other columns as they are.
    pub fn fillna(&self, fill_value: &Value) -> (r: Result<Self, DataError>)
        ensures
            r matches Ok(df) && df.height() == if self.series().len() == 0 {
                0
            } else {
                self.height()
            } && df.series().len() == self.series().len() && forall|k: int|
                0 <= k < df.series().len() ==> (#[trigger] df.series()[k]).name_view() == self.series()[k].name_view()
                    && df.series()[k].kind() == self.series()[k].kind() && df.series()[k].cells() == fill_or_keep(
                    self.series()[k],
                    fill_value@,
                ),
    {
        proof {
            use_type_invariant(self);
        }
        let mut out: Vec<Series> = Vec::new();
        let mut k: usize = 0;
        while k < self.columns.len()
            invariant
                k <= self.columns@.len(),
                forall|c: int| 0 <= c < self.columns@.len() ==> (#[trigger] self.columns@[c]).cells().len() == self.rows,
                out@.len() == k,
                forall|c: int|
                    0 <= c < k ==> (#[trigger] out@[c]).name_view() == self.columns@[c].name_view() && out@[c].kind()
                        == self.columns@[c].kind() && out@[c].cells() == fill_or_keep(self.columns@[c], fill_value@),
            decreases self.columns.len() - k,
        {
            let col = match self.columns[k].fillna(fill_value) {
                Ok(s) => s,
                Err(_) => self.columns[k].clone(),
            };
            out.push(col);
            k = k + 1;
        }
        let h = if self.columns.len() == 0 {
            0
        } else {
            self.rows
        };
        assert forall|c: int| 0 <= c < out@.len() implies (#[trigger] out@[c]).cells().len() == h by {
            assert(self.columns@[c].cells().len() == self.rows);
        }
        Ok(DataFrame::make(out, h))
    }

    /// Every column with each missing value replaced by the last present
    /// value before it.
    pub fn fillna_forward(&self) -> (r: Result<Self, DataError>)
        ensures
            r matches Ok(df) && df.height() == if self.series().len() == 0 {
                0
            } else {
                self.height()
            } && df.series().len() == self.series().len() && forall|k: int|
                0 <= k < df.series().len() ==> (#[trigger] df.series()[k]).name_view() == self.series()[k].name_view()
                    && df.series()[k].kind() == self.series()[k].kind() && df.series()[k].cells() == Seq::new(
                    self.series()[k].cells().len(),
                    |i: int| super::series::last_present(self.series()[k].cells().take(i + 1)),
                ),
    {
        proof {
            use_type_invariant(self);
        }
        let mut out: Vec<Series> = Vec::new();
        let mut k: usize = 0;
        while k < self.columns.len()
            invariant
                k <= self.columns@.len(),
                forall|c: int| 0 <= c < self.columns@.len() ==> (#[trigger] self.columns@[c]).cells().len() == self.rows,
                out@.len() == k,
                forall|c: int|
                    0 <= c < k ==> (#[trigger] out@[c]).name_view() == self.columns@[c].name_view() && out@[c].kind()
                        == self.columns@[c].kind() && out@[c].cells() == Seq::new(
                        self.columns@[c].cells().len(),
                        |i: int| super::series::last_present(self.columns@[c].cells().take(i + 1)),
                    ),
            decreases self.columns.len() - k,
        {
            let col = match self.columns[k].fillna_forward() {
                Ok(s) => s,
                Err(_) => vstd::pervasive::unreached(),
            };
            out.push(col);
            k = k + 1;
        }
        let h = if self.columns.len() == 0 {
            0
        } else {
            self.rows
        };
        assert forall|c: int| 0 <= c < out@.len() implies (#[trigger] out@[c]).cells().len() == h by {
            assert(self.columns@[c].cells().len() == self.rows);
        }
        Ok(DataFrame::make(out, h))
    }

    /// Every column with each missing value replaced by the first present
    /// value after it.
    pub fn fillna_backward(&self) -> (r: Result<Self, DataError>)
        ensures
            r matches Ok(df) && df.height() == if self.series().len() == 0 {
                0
            } else {
                self.height()
            } && df.series().len() == self.series().len() && forall|k: int|
                0 <= k < df.series().len() ==> (#[trigger] df.series()[k]).name_view() == self.series()[k].name_view()
                    && df.series()[k].kind() == self.series()[k].kind() && df.series()[k].cells() == Seq::new(
                    self.series()[k].cells().len(),
                    |i: int| super::series::first_present(self.series()[k].cells().skip(i)),
                ),
    {
        proof {
            use_type_invariant(self);
        }
        let mut out: Vec<Series> = Vec::new();
        let mut k: usize = 0;
        while k < self.columns.len()
            invariant
                k <= self.columns@.len(),
                forall|c: int| 0 <= c < self.columns@.len() ==> (#[trigger] self.columns@[c]).cells().len() == self.rows,
                out@.len() == k,
                forall|c: int|
                    0 <= c < k ==> (#[trigger] out@[c]).name_view() == self.columns@[c].name_view() && out@[c].kind()
                        == self.columns@[c].kind() && out@[c].cells() == Seq::new(
                        self.columns@[c].cells().len(),
                        |i: int| super::series::first_present(self.columns@[c].cells().skip(i)),
                    ),
            decreases self.columns.len() - k,
        {
            let col = match self.columns[k].fillna_backward() {
                Ok(s) => s,
                Err(_) => vstd::pervasive::unreached(),
            };
            out.push(col);
            k = k + 1;
        }
        let h = if self.columns.len() == 0 {
            0
        } else {
            self.rows
        };
        assert forall|c: int| 0 <= c < out@.len() implies (#[trigger] out@[c]).cells().len() == h by {
            assert(self.columns@[c].cells().len() == self.rows);
        }
        Ok(DataFrame::make(out, h))
    }
}

/// The values of the columns.
pub open spec fn cells_of(cols: Seq<Series>) -> Seq<Seq<ValueModel>> {
    cols.map_values(|s: Series| s.cells())
}

/// The values of row `i` across the columns.
pub open spec fn row_values(cells: Seq<Seq<ValueModel>>, i: int) -> Seq<ValueModel> {
    cells.map_values(|c: Seq<ValueModel>| c[i])
}

/// The rows among the first `n`, ascending, whose values no earlier row
/// has.
pub open spec fn first_occurrences(cells: Seq<Seq<ValueModel>>, n: nat) -> Seq<usize>
    decreases n,
{
    if n == 0 {
        Seq::empty()
    } else if exists|j: int| 0 <= j < n - 1 && #[trigger] row_values(cells, j) == row_values(cells, n - 1) {
        first_occurrences(cells, (n - 1) as nat)
    } else {
        first_occurrences(cells, (n - 1) as nat).push((n - 1) as usize)
    }
}

/// The rows among the first `n`, ascending, with no missing value in any
/// of the columns.
pub open spec fn complete_rows(cells: Seq<Seq<ValueModel>>, n: nat) -> Seq<usize>
    decreases n,
{
    if n == 0 {
        Seq::empty()
    } else if exists|c: int| 0 <= c < cells.len() && cells[c][n - 1] == ValueModel::Null {
        complete_rows(cells, (n - 1) as nat)
    } else {
        complete_rows(cells, (n - 1) as nat).push((n - 1) as usize)
    }
}

/// The values of the first columns of the given names.
pub open spec fn named_cells(cols: Seq<Series>, names: Seq<Seq<char>>) -> Seq<Seq<ValueModel>> {
    names.map_values(|n: Seq<char>| cols[first_named(cols, n)].cells())
}

/// The rows picked from `n` stay below `n` and are nonempty when `n` is.
proof fn lemma_first_occurrences(cells: Seq<Seq<ValueModel>>, n: nat)
    ensures
        forall|p: int| 0 <= p < first_occurrences(cells, n).len() ==> (#[trigger] first_occurrences(cells, n)[p] as nat) < n,
        n > 0 ==> first_occurrences(cells, n).len() > 0,
    decreases n,
{
    if n > 0 {
        lemma_first_occurrences(cells, (n - 1) as nat);
        if n == 1 {
            assert(!exists|j: int| 0 <= j < 0 && #[trigger] row_values(cells, j) == row_values(cells, 0));
        }
        let prev = first_occurrences(cells, (n - 1) as nat);
        assert forall|p: int| 0 <= p < first_occurrences(cells, n).len() implies (
        #[trigger] first_occurrences(cells, n)[p] as nat) < n by {
            if p < prev.len() {
                assert(first_occurrences(cells, n)[p] == prev[p]);
            }
        }
    }
}

/// The complete rows stay below `n`.
proof fn lemma_complete_rows(cells: Seq<Seq<ValueModel>>, n: nat)
    ensures
        forall|p: int| 0 <= p < complete_rows(cells, n).len() ==> (#[trigger] complete_rows(cells, n)[p] as nat) < n,
    decreases n,
{
    if n > 0 {
        lemma_complete_rows(cells, (n - 1) as nat);
        let prev = complete_rows(cells, (n - 1) as nat);
        assert forall|p: int| 0 <= p < complete_rows(cells, n).len() implies (#[trigger] complete_rows(cells, n)[p] as nat)
            < n by {
            if p < prev.len() {
                assert(complete_rows(cells, n)[p] == prev[p]);
            }
        }
    }
}

/// Whether rows `i` and `j` have the same values in the columns.
fn same_rows(cols: &Vec<Series>, i: usize, j: usize, Ghost(h): Ghost<nat>) -> (r: bool)
    requires
        rect(cols@, h),
        i < h,
        j < h,
    ensures
        r == (row_values(cells_of(cols@), i as int) == row_values(cells_of(cols@), j as int)),
{
    let ghost cells = cells_of(cols@);
    let mut k: usize = 0;
    while k < cols.len()
        invariant
            k <= cols@.len(),
            rect(cols@, h),
            i < h,
            j < h,
            cells == cells_of(cols@),
            forall|c: int| 0 <= c < k ==> (#[trigger] cells[c])[i as int] == cells[c][j as int],
        decreases cols.len() - k,
    {
        let vs = cols[k].values_ref();
        assert(cols@[k as int].cells().len() == h);
        assert(vs@[i as int]@ == cells[k as int][i as int] && vs@[j as int]@ == cells[k as int][j as int]);
        if !same_value(&vs[i], &vs[j]) {
            assert(row_values(cells, i as int)[k as int] != row_values(cells, j as int)[k as int]);
            return false;
        }
        k = k + 1;
    }
    assert(row_values(cells, i as int) =~= row_values(cells, j as int));
    true
}

/// The rows whose values no earlier row has.
fn first_rows(cols: &Vec<Series>, h: usize) -> (r: Vec<usize>)
    requires
        rect(cols@, h as nat),
    ensures
        r@ == first_occurrences(cells_of(cols@), h as nat),
{
    let ghost cells = cells_of(cols@);
    let mut out: Vec<usize> = Vec::new();
    let mut i: usize = 0;
    while i < h
        invariant
            i <= h,
            rect(cols@, h as nat),
            cells == cells_of(cols@),
            out@ == first_occurrences(cells, i as nat),
        decreases h - i,
    {
        let mut seen = false;
        let mut j: usize = 0;
        while j < i
            invariant
                j <= i < h,
                rect(cols@, h as nat),
                cells == cells_of(cols@),
                seen == exists|q: int| 0 <= q < j && #[trigger] row_values(cells, q) == row_values(cells, i as int),
            decreases i - j,
        {
            if same_rows(cols, j, i, Ghost(h as nat)) {
                seen = true;
            }
            j = j + 1;
        }
        if !seen {
            out.push(i);
        }
        i = i + 1;
    }
    out
}

/// The rows with no missing value in the columns.
fn complete_row_list(cols: &Vec<Series>, h: usize) -> (r: Vec<usize>)
    requires
        rect(cols@, h as nat),
    ensures
        r@ == complete_rows(cells_of(cols@), h as nat),
{
    let ghost cells = cells_of(cols@);
    let mut out: Vec<usize> = Vec::new();
    let mut i: usize = 0;
    while i < h
        invariant
            i <= h,
            rect(cols@, h as nat),
            cells == cells_of(cols@),
            out@ == complete_rows(cells, i as nat),
        decreases h - i,
    {
        let mut missing = false;
        let mut k: usize = 0;
        while k < cols.len()
            invariant
                k <= cols@.len(),
                i < h,
                rect(cols@, h as nat),
                cells == cells_of(cols@),
                missing == exists|c: int| 0 <= c < k && cells[c][i as int] == ValueModel::Null,
            decreases cols.len() - k,
        {
            let vs = cols[k].values_ref();
            assert(cols@[k as int].cells().len() == h);
            assert(vs@[i as int]@ == cells[k as int][i as int]);
            if same_value(&vs[i], &Value::Null) {
                missing = true;
            }
            k = k + 1;
        }
        if !missing {
            out.push(i);
        }
        i = i + 1;
    }
    out
}

impl DataFrame {
    /// A copy of the table.
    fn duplicate(&self) -> (r: Self)
        ensures
            same_columns(r.series(), self.series()),
            r.height() == self.height(),
    {
        proof {
            use_type_invariant(self);
        }
        let cols = copy_columns(&self.columns);
        assert forall|k: int| 0 <= k < cols@.len() implies (#[trigger] cols@[k]).cells().len() == self.rows by {
            assert(same_series(cols@[k], self.columns@[k]));
        }
        DataFrame::make(cols, self.rows)
    }

    /// The first of each group of rows with the same values, in order, each
    /// column rebuilt from the rows kept; a table without rows as it is.
    pub fn distinct(&self) -> (r: Result<Self, DataError>)
        ensures
            self.height() == 0 ==> (r matches Ok(df) && same_columns(df.series(), self.series()) && df.height() == 0),
            self.height() > 0 ==> (r matches Ok(df) && {
                let idx = first_occurrences(cells_of(self.series()), self.height());
                df.height() == idx.len() && picked_columns(df.series(), self.series(), idx)
            }),
    {
        proof {
            use_type_invariant(self);
        }
        if self.rows == 0 {
            return Ok(self.duplicate());
        }
        let idx = first_rows(&self.columns, self.rows);
        proof {
            lemma_first_occurrences(cells_of(self.columns@), self.rows as nat);
            lemma_all_in_range(idx@, self.rows as nat);
        }
        self.filter_by_indices(idx.as_slice())
    }

    /// The first of each group of rows with the same values in the named
    /// columns (each the first of its name), in order, each column rebuilt
    /// from the rows kept; `ColumnNotFound` for the first name missing. A
    /// table without rows comes back as it is.
    pub fn distinct_by(&self, column_names: &[&str]) -> (r: Result<Self, DataError>)
        ensures
            ({
                let names = column_names@.map_values(|c: &str| c@);
                if self.height() == 0 {
                    r matches Ok(df) && same_columns(df.series(), self.series()) && df.height() == 0
                } else if first_missing_name(self.series(), names) >= 0 {
                    r matches Err(DataError::ColumnNotFound(c)) && c@ == names[first_missing_name(self.series(), names)]
                } else {
                    r matches Ok(df) && {
                        let idx = first_occurrences(named_cells(self.series(), names), self.height());
                        df.height() == idx.len() && picked_columns(df.series(), self.series(), idx)
                    }
                }
            }),
    {
        proof {
            use_type_invariant(self);
        }
        if self.rows == 0 {
            return Ok(self.duplicate());
        }
        let keys = self.select(column_names)?;
        proof {
            use_type_invariant(&keys);
        }
        let ghost names = column_names@.map_values(|c: &str| c@);
        assert(cells_of(keys.columns@) =~= named_cells(self.columns@, names));
        assert(rect(keys.columns@, self.rows as nat)) by {
            assert forall|k: int| 0 <= k < keys.columns@.len() implies (#[trigger] keys.columns@[k]).cells().len() == self.rows by {
                assert(keys.columns@[k].cells().len() == keys.rows);
            }
        }
        let idx = first_rows(&keys.columns, self.rows);
        proof {
            lemma_first_occurrences(named_cells(self.columns@, names), self.rows as nat);
            lemma_all_in_range(idx@, self.rows as nat);
        }
        self.filter_by_indices(idx.as_slice())
    }

    /// The rows with no missing value in the named columns (each the first
    /// of its name), each column rebuilt from the rows kept;
    /// `ColumnNotFound` for the first name missing. A table without rows,
    /// or without a missing value in those columns, comes back as it is.
    pub fn dropna_columns(&self, columns: &[String]) -> (r: Result<Self, DataError>)
        ensures
            ({
                let names = columns@.map_values(|c: String| c@);
                let cells = named_cells(self.series(), names);
                if self.height() == 0 {
                    r matches Ok(df) && same_columns(df.series(), self.series()) && df.height() == 0
                } else if first_missing_name(self.series(), names) >= 0 {
                    r matches Err(DataError::ColumnNotFound(c)) && c@ == names[first_missing_name(self.series(), names)]
                } else if forall|c: int| 0 <= c < cells.len() ==> null_total(#[trigger] cells[c]) == 0 {
                    r matches Ok(df) && same_columns(df.series(), self.series()) && df.height() == self.height()
                } else {
                    r matches Ok(df) && {
                        let idx = complete_rows(cells, self.height());
                        df.height() == idx.len() && if idx.len() == 0 {
                            sliced_columns(df.series(), self.series(), 0, 0)
                        } else {
                            picked_columns(df.series(), self.series(), idx)
                        }
                    }
                }
            }),
    {
        proof {
            use_type_invariant(self);
        }
        if self.rows == 0 {
            return Ok(self.duplicate());
        }
        let mut refs: Vec<&str> = Vec::new();
        let mut i: usize = 0;
        while i < columns.len()
            invariant
                i <= columns@.len(),
                refs@.len() == i,
                forall|q: int| 0 <= q < i ==> (#[trigger] refs@[q])@ == columns@[q]@,
            decreases columns.len() - i,
        {
            refs.push(columns[i].as_str());
            i = i + 1;
        }
        let ghost names = columns@.map_values(|c: String| c@);
        assert(refs@.map_values(|c: &str| c@) =~= names);
        let checks = self.select(refs.as_slice())?;
        proof {
            use_type_invariant(&checks);
        }
        assert(cells_of(checks.columns@) =~= named_cells(self.columns@, names));
        let ghost cells = named_cells(self.columns@, names);
        let mut any_null = false;
        let mut k: usize = 0;
        while k < checks.columns.len()
            invariant
                k <= checks.columns@.len(),
                cells == cells_of(checks.columns@),
                any_null == exists|c: int| 0 <= c < k && null_total(#[trigger] cells[c]) != 0,
            decreases checks.columns.len() - k,
        {
            let nc = checks.columns[k].null_count();
            assert(cells[k as int] == checks.columns@[k as int].cells());
            if nc != 0 {
                any_null = true;
            }
            k = k + 1;
        }
        if !any_null {
            return Ok(self.duplicate());
        }
        assert(rect(checks.columns@, self.rows as nat)) by {
            assert forall|k: int| 0 <= k < checks.columns@.len() implies (#[trigger] checks.columns@[k]).cells().len() == self.rows by {
                assert(checks.columns@[k].cells().len() == checks.rows);
            }
        }
        let idx = complete_row_list(&checks.columns, self.rows);
        proof {
            lemma_complete_rows(cells, self.rows as nat);
            lemma_all_in_range(idx@, self.rows as nat);
        }
        self.filter_by_indices(idx.as_slice())
    }

    /// The rows with no missing value in any column; see
    /// [`DataFrame::dropna_columns`].
    pub fn dropna(&self) -> (r: Result<Self, DataError>)
        ensures
            ({
                let cells = named_cells(self.series(), names_of(self.series()));
                if self.height() == 0 {
                    r matches Ok(df) && same_columns(df.series(), self.series()) && df.height() == 0
                } else if forall|c: int| 0 <= c < cells.len() ==> null_total(#[trigger] cells[c]) == 0 {
                    r matches Ok(df) && same_columns(df.series(), self.series()) && df.height() == self.height()
                } else {
                    r matches Ok(df) && {
                        let idx = complete_rows(cells, self.height());
                        df.height() == idx.len() && if idx.len() == 0 {
                            sliced_columns(df.series(), self.series(), 0, 0)
                        } else {
                            picked_columns(df.series(), self.series(), idx)
                        }
                    }
                }
            }),
    {
        let names = self.columns();
        let ghost ns = names@.map_values(|c: String| c@);
        assert(ns =~= names_of(self.columns@));
        proof {
            assert forall|q: int| 0 <= q < ns.len() implies first_named(self.columns@, #[trigger] ns[q]) >= 0 by {
                lemma_first_named(self.columns@, ns[q]);
                assert(ns[q] == self.columns@[q].name_view());
            }
            lemma_no_missing_name(self.columns@, ns);
        }
        self.dropna_columns(names.as_slice())
    }
}

/// Positions below `n` are in range.
proof fn lemma_all_in_range(idx: Seq<usize>, n: nat)
    requires
        forall|p: int| 0 <= p < idx.len() ==> (#[trigger] idx[p] as nat) < n,
    ensures
        first_out_of_range(idx, n) < 0,
    decreases idx.len(),
{
    if idx.len() > 0 {
        let d = idx.drop_last();
        assert forall|p: int| 0 <= p < d.len() implies (#[trigger] d[p] as nat) < n by {
            assert(d[p] == idx[p]);
        }
        lemma_all_in_range(d, n);
        assert((idx[idx.len() - 1] as nat) < n);
    }
}


/// The uneven column, if any, is one of the columns.
pub(crate) proof fn lemma_uneven_range(cols: Seq<Series>)
    ensures
        first_uneven(cols) < cols.len(),
    decreases cols.len(),
{
    if cols.len() > 1 {
        lemma_uneven_range(cols.drop_last());
    }
}

/// Columns the same pointwise have their uneven column at the same place.
pub(crate) proof fn lemma_uneven_same(a: Seq<Series>, b: Seq<Series>)
    requires
        same_columns(a, b),
    ensures
        first_uneven(a) == first_uneven(b),
    decreases a.len(),
{
    if a.len() > 1 {
        assert(same_columns(a.drop_last(), b.drop_last())) by {
            assert forall|k: int| 0 <= k < a.len() - 1 implies same_series(#[trigger] a.drop_last()[k], b.drop_last()[k]) by {
                assert(same_series(a[k], b[k]));
            }
        }
        lemma_uneven_same(a.drop_last(), b.drop_last());
        assert(same_series(a[0], b[0]));
        assert(same_series(a[a.len() - 1], b[b.len() - 1]));
    }
}

/// The places `0..n`.
fn places(n: usize) -> (r: Vec<usize>)
    ensures
        r@.len() == n,
        forall|p: int| 0 <= p < n ==> #[trigger] r@[p] == p,
{
    let mut out: Vec<usize> = Vec::new();
    let mut i: usize = 0;
    while i < n
        invariant
            i <= n,
            out@.len() == i,
            forall|p: int| 0 <= p < i ==> #[trigger] out@[p] == p,
        decreases n - i,
    {
        out.push(i);
        i = i + 1;
    }
    out
}

/// The columns with `series` in place of every column of its name.
pub open spec fn replaced_list(cols: Seq<Series>, series: Series) -> Seq<Series> {
    Seq::new(cols.len(), |k: int| if cols[k].name_view() == series.name_view() {
        series
    } else {
        cols[k]
    })
}

/// The message for a column added with the wrong number of rows.
pub open spec fn added_length_message(name: Seq<char>, len: nat, rows: nat) -> Seq<char> {
    "cannot add column '"@ + name + "' with "@ + dec(len) + " rows to DataFrame with "@ + dec(rows) + " rows"@
}

/// The message for a column added under a name the table has.
pub open spec fn duplicate_message(name: Seq<char>) -> Seq<char> {
    "column '"@ + name + "' already exists in DataFrame"@
}

impl DataFrame {
    /// A table with an `index` column of the row places first, then the
    /// columns, each the first of its name.
    pub fn reset_index(&self) -> (r: Result<Self, DataError>)
        ensures
            r matches Ok(df) && df.height() == self.height() && df.series().len() == self.series().len() + 1
                && df.series()[0].name_view() == "index"@ && df.series()[0].kind() == SeriesType::Int64
                && df.series()[0].cells() == Seq::new(self.height(), |i: int| ValueModel::Int(i as i64)) && selected(
                df.series().drop_first(),
                self.series(),
                names_of(self.series()),
            ),
    {
        proof {
            use_type_invariant(self);
        }
        let mut ints: Vec<i64> = Vec::new();
        let mut i: usize = 0;
        while i < self.rows
            invariant
                i <= self.rows,
                ints@.len() == i,
                forall|p: int| 0 <= p < i ==> #[trigger] ints@[p] == p as i64,
            decreases self.rows - i,
        {
            ints.push(i as i64);
            i = i + 1;
        }
        let index = Series::from_ints("index", ints);
        assert(index.cells() =~= Seq::new(self.rows as nat, |i: int| ValueModel::Int(i as i64)));
        let mut out: Vec<Series> = Vec::new();
        out.push(index);
        let mut k: usize = 0;
        while k < self.columns.len()
            invariant
                k <= self.columns@.len(),
                forall|c: int| 0 <= c < self.columns@.len() ==> (#[trigger] self.columns@[c]).cells().len() == self.rows,
                out@.len() == k + 1,
                out@[0].name_view() == "index"@,
                out@[0].kind() == SeriesType::Int64,
                out@[0].cells() == Seq::new(self.rows as nat, |i: int| ValueModel::Int(i as i64)),
                forall|c: int|
                    0 <= c < k ==> same_series(
                        #[trigger] out@[c + 1],
                        self.columns@[first_named(self.columns@, self.columns@[c].name_view())],
                    ),
            decreases self.columns.len() - k,
        {
            proof {
                lemma_first_named(self.columns@, self.columns@[k as int].name_view());
            }
            let src = match find_series(&self.columns, self.columns[k].name()) {
                Some(j) => self.columns[j].clone(),
                None => vstd::pervasive::unreached(),
            };
            out.push(src);
            k = k + 1;
        }
        assert forall|c: int| 0 <= c < out@.len() implies (#[trigger] out@[c]).cells().len() == self.rows by {
            if c > 0 {
                lemma_first_named(self.columns@, self.columns@[c - 1].name_view());
                assert(same_series(out@[(c - 1) + 1], self.columns@[first_named(self.columns@, self.columns@[c - 1].name_view())]));
            }
        }
        let df = DataFrame::make(out, self.rows);
        assert forall|c: int| 0 <= c < df.series().drop_first().len() implies same_series(
            #[trigger] df.series().drop_first()[c],
            self.columns@[first_named(self.columns@, names_of(self.columns@)[c])],
        ) by {
            assert(df.series().drop_first()[c] == out@[c + 1]);
        }
        Ok(df)
    }

    /// A table with the first column named `column` first, then the other
    /// columns, each the first of its name; `ColumnNotFound` if there is no
    /// such column.
    pub fn set_index(&self, column: &str) -> (r: Result<Self, DataError>)
        ensures
            first_named(self.series(), column@) < 0 ==> (r matches Err(DataError::ColumnNotFound(c)) && c@ == column@),
            first_named(self.series(), column@) >= 0 ==> (r matches Ok(df) && df.height() == self.height()
                && df.series().len() >= 1 && same_series(
                df.series()[0],
                self.series()[first_named(self.series(), column@)],
            ) && selected(df.series().drop_first(), self.series(), kept_names(self.series(), seq![column@]))),
    {
        proof {
            use_type_invariant(self);
        }
        let first = self.column(column)?;
        let mut out: Vec<Series> = Vec::new();
        out.push(first);
        let ghost kept = kept_names(self.columns@, seq![column@]);
        let mut k: usize = 0;
        while k < self.columns.len()
            invariant
                k <= self.columns@.len(),
                first_named(self.columns@, column@) >= 0,
                forall|c: int| 0 <= c < self.columns@.len() ==> (#[trigger] self.columns@[c]).cells().len() == self.rows,
                out@.len() >= 1,
                same_series(out@[0], self.columns@[first_named(self.columns@, column@)]),
                selected(out@.drop_first(), self.columns@, kept_names(self.columns@.take(k as int), seq![column@])),
            decreases self.columns.len() - k,
        {
            assert(self.columns@.take(k + 1).drop_last() =~= self.columns@.take(k as int));
            assert(self.columns@.take(k + 1).last() == self.columns@[k as int]);
            let name = self.columns[k].name();
            let ghost before = out@;
            if !str_eq(name, column) {
                proof {
                    lemma_first_named(self.columns@, name@);
                }
                let src = match find_series(&self.columns, name) {
                    Some(j) => self.columns[j].clone(),
                    None => vstd::pervasive::unreached(),
                };
                out.push(src);
                assert(out@.drop_first() =~= before.drop_first().push(src));
                assert(!seq![column@].contains(name@)) by {
                    if seq![column@].contains(name@) {
                        let q = choose|q: int| 0 <= q < 1 && seq![column@][q] == name@;
                    }
                }
            } else {
                assert(seq![column@][0] == name@);
            }
            k = k + 1;
        }
        assert(self.columns@.take(self.columns@.len() as int) =~= self.columns@);
        proof {
            lemma_first_named(self.columns@, column@);
        }
        assert forall|c: int| 0 <= c < out@.len() implies (#[trigger] out@[c]).cells().len() == self.rows by {
            if c > 0 {
                assert(out@.drop_first()[c - 1] == out@[c]);
                let n = kept_names(self.columns@, seq![column@])[c - 1];
                lemma_kept_named(self.columns@, seq![column@], c - 1);
                lemma_first_named(self.columns@, n);
            }
        }
        Ok(DataFrame::make(out, self.rows))
    }
}

/// A kept name names a column.
proof fn lemma_kept_named(cols: Seq<Series>, names: Seq<Seq<char>>, q: int)
    requires
        0 <= q < kept_names(cols, names).len(),
    ensures
        first_named(cols, kept_names(cols, names)[q]) >= 0,
    decreases cols.len(),
{
    if cols.len() > 0 {
        let d = cols.drop_last();
        let kd = kept_names(d, names);
        if q < kd.len() {
            lemma_kept_named(d, names, q);
            assert(kept_names(cols, names)[q] == kd[q]);
            lemma_named_prefix(cols, kd[q], cols.len() - 1);
            assert(cols.take(cols.len() - 1) =~= d);
        } else {
            lemma_first_named(cols, cols.last().name_view());
        }
    }
}


/// Why a column of the given name and length cannot be added to a table of
/// the given columns and height: its length, its name, or its length against
/// the columns of an empty table; `None` if it can.
pub open spec fn add_refusal(cols: Seq<Series>, h: nat, name: Seq<char>, len: nat) -> Option<Seq<char>> {
    if len != h && h != 0 {
        Some(added_length_message(name, len, h))
    } else if first_named(cols, name) >= 0 {
        Some(duplicate_message(name))
    } else if cols.len() > 0 && len != h {
        Some(uneven_message(name, len, 0))
    } else {
        None
    }
}

/// `df` is `cols` with one more column, of the given name, type and values,
/// last.
pub open spec fn added(df: DataFrame, cols: Seq<Series>, name: Seq<char>, kind: SeriesType, cells: Seq<ValueModel>) -> bool {
    &&& df.series().len() == cols.len() + 1
    &&& same_columns(df.series().drop_last(), cols)
    &&& df.series().last().name_view() == name
    &&& df.series().last().kind() == kind
    &&& df.series().last().cells() == cells
    &&& df.height() == cells.len()
}

/// The message for a column whose length does not fit the table.
fn length_message(name: &str, len: usize, rows: usize) -> (m: String)
    ensures
        m@ == added_length_message(name@, len as nat, rows as nat),
{
    let mut m = copy_str("cannot add column '");
    m.append(name);
    m.append("' with ");
    push_dec(&mut m, len as u128);
    m.append(" rows to DataFrame with ");
    push_dec(&mut m, rows as u128);
    m.append(" rows");
    m
}

impl DataFrame {
    /// The table with `series` as a new last column.
    pub fn add_column(&self, series: Series) -> (r: Result<Self, DataError>)
        ensures
            match add_refusal(self.series(), self.height(), series.name_view(), series.cells().len()) {
                Some(m) => r matches Err(DataError::SchemaMismatch(e)) && e@ == m,
                None => r matches Ok(df) && added(df, self.series(), series.name_view(), series.kind(), series.cells()),
            },
    {
        proof {
            use_type_invariant(self);
        }
        let len = series.len();
        if len != self.rows && self.rows != 0 {
            return Err(DataError::SchemaMismatch(length_message(series.name(), len, self.rows)));
        }
        if find_series(&self.columns, series.name()).is_some() {
            let mut m = copy_str("column '");
            m.append(series.name());
            m.append("' already exists in DataFrame");
            return Err(DataError::SchemaMismatch(m));
        }
        if self.columns.len() > 0 && len != self.rows {
            let mut m = copy_str("column '");
            m.append(series.name());
            m.append("' has ");
            push_dec(&mut m, len as u128);
            m.append(" rows, expected ");
            push_dec(&mut m, 0);
            assert(m@ =~= uneven_message(series.name_view(), len as nat, 0));
            return Err(DataError::SchemaMismatch(m));
        }
        let mut cols = copy_columns(&self.columns);
        let ghost before = cols@;
        cols.push(series);
        assert(cols@.drop_last() =~= before);
        assert forall|k: int| 0 <= k < cols@.len() implies (#[trigger] cols@[k]).cells().len() == len by {
            if k < before.len() {
                assert(same_series(before[k], self.columns@[k]));
            }
        }
        Ok(DataFrame::make(cols, len))
    }

    /// The table with a new last column built from `values` as
    /// `Series::from_values` builds one.
    pub fn add_column_from_values(&self, name: &str, values: &[Value]) -> (r: Result<Self, DataError>)
        ensures
            ({
                let vv = value_views(values@);
                let t = inferred_type(vv);
                let k = first_misfit(t, vv);
                if k >= 0 {
                    r matches Err(DataError::TypeMismatch { expected, found }) && expected@ == expected_name(t)
                        && found@ == kind_name(vv[k])
                } else {
                    match add_refusal(self.series(), self.height(), name@, vv.len()) {
                        Some(m) => r matches Err(DataError::SchemaMismatch(e)) && e@ == m,
                        None => r matches Ok(df) && added(df, self.series(), name@, t, vv),
                    }
                }
            }),
    {
        let series = Series::from_values(name, values)?;
        self.add_column(series)
    }

    /// The table with `series` in place of every column of its name, or as a
    /// new last column where it has none.
    pub fn with_column(&self, series: Series) -> (r: Result<Self, DataError>)
        ensures
            ({
                let len = series.cells().len();
                let rl = replaced_list(self.series(), series);
                let u = first_uneven(rl);
                if len != self.height() && self.height() != 0 {
                    r matches Err(DataError::SchemaMismatch(e)) && e@ == added_length_message(
                        series.name_view(),
                        len,
                        self.height(),
                    )
                } else if first_named(self.series(), series.name_view()) >= 0 {
                    if u >= 0 {
                        r matches Err(DataError::SchemaMismatch(e)) && e@ == uneven_message(
                            rl[u].name_view(),
                            rl[u].cells().len(),
                            rl[0].cells().len(),
                        )
                    } else {
                        r matches Ok(df) && same_columns(df.series(), rl) && df.height() == rl[0].cells().len()
                    }
                } else {
                    match add_refusal(self.series(), self.height(), series.name_view(), len) {
                        Some(m) => r matches Err(DataError::SchemaMismatch(e)) && e@ == m,
                        None => r matches Ok(df) && added(df, self.series(), series.name_view(), series.kind(), series.cells()),
                    }
                }
            }),
    {
        proof {
            use_type_invariant(self);
        }
        let len = series.len();
        if len != self.rows && self.rows != 0 {
            return Err(DataError::SchemaMismatch(length_message(series.name(), len, self.rows)));
        }
        if find_series(&self.columns, series.name()).is_none() {
            return self.add_column(series);
        }
        let ghost rl = replaced_list(self.columns@, series);
        let mut cols: Vec<Series> = Vec::new();
        let mut k: usize = 0;
        while k < self.columns.len()
            invariant
                k <= self.columns@.len(),
                rl == replaced_list(self.columns@, series),
                cols@.len() == k,
                forall|c: int| 0 <= c < k ==> same_series(#[trigger] cols@[c], rl[c]),
            decreases self.columns.len() - k,
        {
            if str_eq(self.columns[k].name(), series.name()) {
                cols.push(series.clone());
            } else {
                cols.push(self.columns[k].clone());
            }
            k = k + 1;
        }
        assert(same_columns(cols@, rl));
        proof {
            lemma_uneven_same(cols@, rl);
            lemma_uneven_range(rl);
            assert(same_series(cols@[0], rl[0]));
            let u = first_uneven(rl);
            if u >= 0 {
                assert(same_series(cols@[u], rl[u]));
            }
        }
        let ghost cs = cols@;
        let r = DataFrame::from_series(cols);
        proof {
            if r is Ok {
                assert(r->Ok_0.series() == cs);
            }
        }
        r
    }
}

} // verus!
