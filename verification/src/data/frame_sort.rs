//! Sorting a table's rows by some of its columns.

use vstd::prelude::*;

use super::dataframe::{copy_columns, find_series, first_missing_name, first_named, lemma_first_named, rect, same_columns, same_series, DataFrame};
use super::error::DataError;
use super::frame_ops::named;
use super::series::{fits, pick, Series, SeriesType};
use super::series_ops::{before, value_before};
use super::value::{same_value, value_views, Value, ValueModel};
use crate::text::{lemma_lex_antisym, lemma_lex_total, lemma_lex_trans};

verus! {

/// Whether value `a` goes before `b` in a sort column: missing values
/// last; present values by [`before`], reversed when descending.
pub open spec fn sort_less(a: ValueModel, b: ValueModel, descending: bool) -> bool {
    if a is Null {
        false
    } else if b is Null {
        true
    } else if descending {
        before(b, a)
    } else {
        before(a, b)
    }
}

/// A sort key: a column's values, whether it sorts descending, and the
/// column's type.
pub type SortKey = (Seq<ValueModel>, bool, SeriesType);

/// Whether row `i` goes before row `j`: by the first key on which they
/// differ.
pub open spec fn row_less(keys: Seq<SortKey>, i: int, j: int) -> bool
    decreases keys.len(),
{
    if keys.len() == 0 {
        false
    } else if sort_less(keys[0].0[i], keys[0].0[j], keys[0].1) {
        true
    } else if sort_less(keys[0].0[j], keys[0].0[i], keys[0].1) {
        false
    } else {
        row_less(keys.drop_first(), i, j)
    }
}

/// Whether rows `i` and `j` hold the same value in every key.
pub open spec fn row_tie(keys: Seq<SortKey>, i: int, j: int) -> bool {
    forall|k: int| 0 <= k < keys.len() ==> (#[trigger] keys[k]).0[i] == keys[k].0[j]
}

/// Whether row `i` goes before row `j` in a stable sort: by the keys, rows
/// the keys do not order in their own order.
pub open spec fn ranks(keys: Seq<SortKey>, i: int, j: int) -> bool {
    row_less(keys, i, j) || (!row_less(keys, j, i) && i < j)
}

/// Every key holds `n` values, each of the key's type.
pub open spec fn typed_keys(keys: Seq<SortKey>, n: nat) -> bool {
    forall|k: int|
        0 <= k < keys.len() ==> (#[trigger] keys[k]).0.len() == n && forall|i: int|
            0 <= i < n ==> fits(keys[k].2, #[trigger] keys[k].0[i])
}

/// `idx` holds each row below `n` once, in stable sorted order.
pub open spec fn sorted_rows(keys: Seq<SortKey>, n: nat, idx: Seq<usize>) -> bool {
    &&& idx.len() == n
    &&& forall|x: int| 0 <= x < idx.len() ==> (#[trigger] idx[x] as int) < n
    &&& forall|x: int, y: int| 0 <= x < y < idx.len() ==> idx[x] != idx[y]
    &&& forall|x: int, y: int| 0 <= x < y < idx.len() ==> ranks(keys, idx[x] as int, idx[y] as int)
}

/// On values of one type, the sort order is a strict total order up to
/// equal values.
proof fn lemma_sort_less(a: ValueModel, b: ValueModel, c: ValueModel, d: bool, t: SeriesType)
    requires
        fits(t, a),
        fits(t, b),
        fits(t, c),
    ensures
        !sort_less(a, a, d),
        sort_less(a, b, d) ==> !sort_less(b, a, d),
        sort_less(a, b, d) || sort_less(b, a, d) || a == b,
        sort_less(a, b, d) && sort_less(b, c, d) ==> sort_less(a, c, d),
{
    match (a, b, c) {
        (ValueModel::Str(x), ValueModel::Str(y), ValueModel::Str(z)) => {
            lemma_lex_total(x, y);
            if lex_le_both(x, y) {
                lemma_lex_antisym(x, y);
            }
            if crate::text::lex_le(x, y) && crate::text::lex_le(y, z) {
                lemma_lex_trans(x, y, z);
                if x == z {
                    lemma_lex_antisym(x, y);
                }
            }
            if crate::text::lex_le(z, y) && crate::text::lex_le(y, x) {
                lemma_lex_trans(z, y, x);
                if x == z {
                    lemma_lex_antisym(x, y);
                }
            }
        },
        (ValueModel::Str(x), ValueModel::Str(y), _) => {
            lemma_lex_total(x, y);
            if lex_le_both(x, y) {
                lemma_lex_antisym(x, y);
            }
        },
        _ => {},
    }
}

/// Each string no later than the other.
spec fn lex_le_both(x: Seq<char>, y: Seq<char>) -> bool {
    crate::text::lex_le(x, y) && crate::text::lex_le(y, x)
}


/// On typed keys, the order of rows is a strict order, total up to rows
/// that tie, and tied rows go before and after the same rows.
proof fn lemma_row_less(keys: Seq<SortKey>, n: nat, i: int, j: int, l: int)
    requires
        typed_keys(keys, n),
        0 <= i < n,
        0 <= j < n,
        0 <= l < n,
    ensures
        !row_less(keys, i, i),
        row_less(keys, i, j) ==> !row_less(keys, j, i),
        row_less(keys, i, j) || row_less(keys, j, i) || row_tie(keys, i, j),
        row_less(keys, i, j) && row_less(keys, j, l) ==> row_less(keys, i, l),
        row_tie(keys, i, j) ==> row_less(keys, i, l) == row_less(keys, j, l) && row_less(keys, l, i) == row_less(
            keys,
            l,
            j,
        ),
    decreases keys.len(),
{
    if keys.len() > 0 {
        let rest = keys.drop_first();
        assert(typed_keys(rest, n)) by {
            assert forall|k: int| 0 <= k < rest.len() implies (#[trigger] rest[k]).0.len() == n && forall|x: int|
                0 <= x < n ==> fits(rest[k].2, #[trigger] rest[k].0[x]) by {
                assert(rest[k] == keys[k + 1]);
            }
        }
        lemma_row_less(rest, n, i, j, l);
        let key = keys[0];
        let d = key.1;
        let t = key.2;
        assert(key.0.len() == n);
        let (a, b, c) = (key.0[i], key.0[j], key.0[l]);
        assert(fits(t, a) && fits(t, b) && fits(t, c));
        lemma_sort_less(a, b, c, d, t);
        lemma_sort_less(b, a, c, d, t);
        lemma_sort_less(a, c, b, d, t);
        lemma_sort_less(c, a, b, d, t);
        lemma_sort_less(b, c, a, d, t);
        lemma_sort_less(c, b, a, d, t);
        if row_tie(keys, i, j) {
            assert(keys[0].0[i] == keys[0].0[j]);
            assert(row_tie(rest, i, j)) by {
                assert forall|k: int| 0 <= k < rest.len() implies (#[trigger] rest[k]).0[i] == rest[k].0[j] by {
                    assert(rest[k] == keys[k + 1]);
                }
            }
        }
        if !row_less(keys, i, j) && !row_less(keys, j, i) {
            assert(a == b);
            assert(row_tie(rest, i, j));
            assert(row_tie(keys, i, j)) by {
                assert forall|k: int| 0 <= k < keys.len() implies (#[trigger] keys[k]).0[i] == keys[k].0[j] by {
                    if k > 0 {
                        assert(keys[k] == rest[k - 1]);
                    }
                }
            }
        }
    }
}


/// The sort keys the named columns give: for each `(name, descending)` the
/// first column of that name.
pub open spec fn sort_keys(cols: Seq<Series>, columns: Seq<(&str, bool)>) -> Seq<SortKey> {
    Seq::new(
        columns.len(),
        |c: int| (named(cols, columns[c].0@).cells(), columns[c].1, named(cols, columns[c].0@).kind()),
    )
}

/// Whether `a` goes before `b` in a sort column.
fn sort_less_exec(a: &Value, b: &Value, descending: bool) -> (r: bool)
    ensures
        r == sort_less(a@, b@, descending),
{
    if matches!(a, Value::Null) {
        false
    } else if matches!(b, Value::Null) {
        true
    } else if descending {
        value_before(b, a)
    } else {
        value_before(a, b)
    }
}

/// The keys' values are those of the given columns.
pub open spec fn keys_hold(keys: &Vec<(&Vec<Value>, bool)>, ks: Seq<SortKey>) -> bool {
    &&& keys@.len() == ks.len()
    &&& forall|k: int|
        0 <= k < ks.len() ==> value_views((#[trigger] keys@[k]).0@) == ks[k].0 && keys@[k].1 == ks[k].1
}

/// Whether row `i` goes before row `j` by the keys.
fn row_less_exec(keys: &Vec<(&Vec<Value>, bool)>, i: usize, j: usize, Ghost(ks): Ghost<Seq<SortKey>>, Ghost(n): Ghost<nat>) -> (r:
    bool)
    requires
        keys_hold(keys, ks),
        typed_keys(ks, n),
        i < n,
        j < n,
    ensures
        r == row_less(ks, i as int, j as int),
{
    assert(ks.skip(0) =~= ks);
    let mut k: usize = 0;
    while k < keys.len()
        invariant
            k <= keys@.len(),
            keys_hold(keys, ks),
            typed_keys(ks, n),
            i < n,
            j < n,
            row_less(ks, i as int, j as int) == row_less(ks.skip(k as int), i as int, j as int),
        decreases keys.len() - k,
    {
        let col = keys[k].0;
        let d = keys[k].1;
        assert(ks.skip(k as int)[0] == ks[k as int]);
        assert(ks.skip(k as int).drop_first() =~= ks.skip(k + 1));
        assert(ks[k as int].0.len() == n);
        assert(value_views(col@)[i as int] == col@[i as int]@);
        assert(value_views(col@)[j as int] == col@[j as int]@);
        if sort_less_exec(&col[i], &col[j], d) {
            return true;
        }
        if sort_less_exec(&col[j], &col[i], d) {
            return false;
        }
        k = k + 1;
    }
    assert(ks.skip(keys@.len() as int).len() == 0);
    false
}


/// The rows below `n` in stable sorted order by the keys.
pub(crate) fn stable_order(keys: &Vec<(&Vec<Value>, bool)>, n: usize, Ghost(ks): Ghost<Seq<SortKey>>) -> (idx: Vec<usize>)
    requires
        keys_hold(keys, ks),
        typed_keys(ks, n as nat),
    ensures
        sorted_rows(ks, n as nat, idx@),
{
    let mut idx: Vec<usize> = Vec::new();
    let mut b: usize = 0;
    while b < n
        invariant
            b <= n,
            keys_hold(keys, ks),
            typed_keys(ks, n as nat),
            idx@.len() == b,
            forall|x: int| 0 <= x < idx@.len() ==> #[trigger] idx@[x] < b,
            forall|x: int, y: int| 0 <= x < y < idx@.len() ==> ranks(ks, idx@[x] as int, idx@[y] as int),
            forall|v: usize| v < b ==> #[trigger] idx@.contains(v),
        decreases n - b,
    {
        let mut p: usize = 0;
        while p < idx.len() && !row_less_exec(keys, b, idx[p], Ghost(ks), Ghost(n as nat))
            invariant
                p <= idx@.len(),
                b < n,
                keys_hold(keys, ks),
                typed_keys(ks, n as nat),
                forall|x: int| 0 <= x < idx@.len() ==> #[trigger] idx@[x] < b,
                forall|x: int| 0 <= x < p ==> !row_less(ks, b as int, #[trigger] idx@[x] as int),
            decreases idx.len() - p,
        {
            p = p + 1;
        }
        let ghost before = idx@;
        idx.insert(p, b);
        proof {
            assert forall|x: int, y: int| 0 <= x < y < idx@.len() implies ranks(ks, idx@[x] as int, idx@[y] as int) by {
                if y < p {
                    assert(idx@[x] == before[x] && idx@[y] == before[y]);
                } else if y == p {
                    assert(idx@[x] == before[x]);
                } else if x == p {
                    let a = before[p as int] as int;
                    let z = before[y - 1] as int;
                    assert(idx@[y] == before[y - 1]);
                    assert(row_less(ks, b as int, a));
                    if y - 1 > p {
                        assert(ranks(ks, a, z));
                        lemma_row_less(ks, n as nat, b as int, a, z);
                        lemma_row_less(ks, n as nat, a, z, b as int);
                        lemma_row_less(ks, n as nat, b as int, z, a);
                    }
                    lemma_row_less(ks, n as nat, b as int, z, a);
                } else if x < p {
                    assert(idx@[x] == before[x] && idx@[y] == before[y - 1]);
                } else {
                    assert(idx@[x] == before[x - 1] && idx@[y] == before[y - 1]);
                }
            }
            assert forall|v: usize| v < b + 1 implies #[trigger] idx@.contains(v) by {
                if v == b {
                    assert(idx@[p as int] == b);
                } else {
                    assert(before.contains(v));
                    let x = choose|x: int| 0 <= x < before.len() && before[x] == v;
                    if x < p {
                        assert(idx@[x] == before[x]);
                    } else {
                        assert(idx@[x + 1] == before[x]);
                    }
                }
            }
            assert forall|x: int| 0 <= x < idx@.len() implies #[trigger] idx@[x] < b + 1 by {
                if x < p {
                    assert(idx@[x] == before[x]);
                } else if x > p {
                    assert(idx@[x] == before[x - 1]);
                }
            }
        }
        b = b + 1;
    }
    proof {
        assert forall|x: int, y: int| 0 <= x < y < idx@.len() implies idx@[x] != idx@[y] by {
            lemma_row_less(ks, n as nat, idx@[x] as int, idx@[y] as int, idx@[y] as int);
            assert(ranks(ks, idx@[x] as int, idx@[y] as int));
        }
        assert(sorted_rows(ks, n as nat, idx@));
    }
    idx
}

impl DataFrame {
    /// The rows sorted by the named columns, the first first, each
    /// ascending or, where its flag is set, descending; missing values
    /// last. Rows the columns do not order keep their order. No columns, or
    /// no rows, leave the table as it is; a name no column has fails with
    /// `ColumnNotFound`.
    pub fn sort_by(&self, columns: &[(&str, bool)]) -> (r: Result<Self, DataError>)
        ensures
            ({
                let names = columns@.map_values(|c: (&str, bool)| c.0@);
                let m = first_missing_name(self.series(), names);
                if columns@.len() == 0 || self.height() == 0 {
                    r matches Ok(df) && same_columns(df.series(), self.series()) && df.height() == self.height()
                } else if m >= 0 {
                    r matches Err(DataError::ColumnNotFound(c)) && c@ == names[m]
                } else {
                    r matches Ok(df) && df.height() == self.height() && df.series().len() == self.series().len() && exists|
                        idx: Seq<usize>,
                    |
                        sorted_rows(sort_keys(self.series(), columns@), self.height(), idx) && forall|k: int|
                            0 <= k < df.series().len() ==> (#[trigger] df.series()[k]).name_view() == self.series()[k].name_view()
                                && df.series()[k].kind() == self.series()[k].kind() && df.series()[k].cells() == pick(
                                self.series()[k].cells(),
                                idx,
                            )
                }
            }),
    {
        let cols = self.series_ref();
        let n = self.num_rows();
        if columns.len() == 0 || n == 0 {
            return Ok(self.clone());
        }
        let ghost names = columns@.map_values(|c: (&str, bool)| c.0@);
        let ghost ks = sort_keys(self.series(), columns@);
        let mut keys: Vec<(&Vec<Value>, bool)> = Vec::new();
        let mut c: usize = 0;
        while c < columns.len()
            invariant
                c <= columns@.len(),
                cols@ == self.series(),
                rect(cols@, n as nat),
                n == self.height(),
                n > 0,
                columns@.len() > 0,
                names == columns@.map_values(|c: (&str, bool)| c.0@),
                ks == sort_keys(self.series(), columns@),
                first_missing_name(self.series(), names.take(c as int)) < 0,
                keys@.len() == c,
                forall|k: int|
                    0 <= k < c ==> value_views((#[trigger] keys@[k]).0@) == ks[k].0 && keys@[k].1 == ks[k].1,
                forall|k: int|
                    0 <= k < c ==> ks[k].0.len() == n && forall|x: int| 0 <= x < n ==> fits(ks[k].2, #[trigger] ks[k].0[x]),
            decreases columns.len() - c,
        {
            assert(names.take(c + 1).drop_last() =~= names.take(c as int));
            assert(names.take(c + 1).last() == names[c as int]);
            assert(names[c as int] == columns@[c as int].0@);
            let name = columns[c].0;
            match find_series(cols, name) {
                None => {
                    proof {
                        lemma_missing_prefix(self.series(), names, (c + 1) as int);
                    }
                    return Err(DataError::ColumnNotFound(crate::text::copy_str(name)));
                },
                Some(j) => {
                    let vals = cols[j].values_ref();
                    proof {
                        assert forall|x: int| 0 <= x < n implies fits(ks[c as int].2, #[trigger] ks[c as int].0[x]) by {
                            assert(ks[c as int].0[x] == vals@[x]@);
                        }
                    }
                    keys.push((vals, columns[c].1));
                },
            }
            c = c + 1;
        }
        assert(names.take(names.len() as int) =~= names);
        assert(typed_keys(ks, n as nat));
        assert(keys_hold(&keys, ks));
        let idx = stable_order(&keys, n, Ghost(ks));
        let mut out: Vec<Series> = Vec::new();
        let mut k: usize = 0;
        while k < cols.len()
            invariant
                k <= cols@.len(),
                cols@ == self.series(),
                rect(cols@, n as nat),
                idx@.len() == n,
                forall|x: int| 0 <= x < idx@.len() ==> (#[trigger] idx@[x] as int) < n,
                out@.len() == k,
                forall|q: int|
                    0 <= q < k ==> (#[trigger] out@[q]).name_view() == cols@[q].name_view() && out@[q].kind()
                        == cols@[q].kind() && out@[q].cells() == pick(cols@[q].cells(), idx@),
            decreases cols.len() - k,
        {
            out.push(cols[k].reorder(idx.as_slice()));
            k = k + 1;
        }
        let df = DataFrame::make(out, n);
        assert(sorted_rows(ks, n as nat, idx@));
        Ok(df)
    }
}

/// A missing name found among the first `k` is the first missing.
proof fn lemma_missing_prefix(cols: Seq<Series>, names: Seq<Seq<char>>, k: int)
    requires
        0 <= k <= names.len(),
        first_missing_name(cols, names.take(k)) >= 0,
    ensures
        first_missing_name(cols, names) == first_missing_name(cols, names.take(k)),
    decreases names.len() - k,
{
    if k < names.len() {
        assert(names.take(k + 1).drop_last() =~= names.take(k));
        lemma_missing_prefix(cols, names, k + 1);
    } else {
        assert(names.take(k) =~= names);
    }
}

} // verus!
