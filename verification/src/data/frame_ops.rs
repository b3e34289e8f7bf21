//! Whole-table operations built column by column: merging, reshaping,
//! crossing, melting, stacking, transposing, exploding and filling tables.

use vstd::prelude::*;

use super::dataframe::{
    copy_columns, fill_or_keep, kept_names, kept_refs, lemma_no_missing_name, find_series, first_missing_name, first_named, first_uneven, lemma_first_named, lemma_uneven_range,
    lemma_uneven_same, names_of, rect, same_columns, same_series, selected, uneven_message, DataFrame,
};
use super::error::DataError;
use super::merge::{lemma_merged_view, merged_view, string_views, table_view};
use super::predicate::table_rows;
use super::reshape::{header, header_of, float_aggregation, lemma_reshaped_view, pivot_cell, reshaped_view, unstack_cell};
use super::series::{expected_name, first_misfit, fits, inferred_type, kind_name, lemma_fitting_values, Series, SeriesType};
use super::value::{copy_value, same_value, value_views, Value, ValueModel};
use vstd::arithmetic::div_mod::lemma_fundamental_div_mod_converse;
use crate::fmt::{dec, push_dec};
use crate::text::{copy_str, debug_list, debug_strings, str_eq};

verus! {

/// The content of a table's columns: each column's name and values.
pub open spec fn frame_table(cols: Seq<Series>) -> Seq<(Seq<char>, Seq<ValueModel>)> {
    cols.map_values(|s: Series| (s.name_view(), s.cells()))
}

/// The first column whose values do not all fit the type they infer, or -1.
pub open spec fn first_untyped(tv: Seq<(Seq<char>, Seq<ValueModel>)>) -> int
    decreases tv.len(),
{
    if tv.len() == 0 {
        -1
    } else if first_untyped(tv.drop_last()) >= 0 {
        first_untyped(tv.drop_last())
    } else if first_misfit(inferred_type(tv.last().1), tv.last().1) >= 0 {
        tv.len() - 1
    } else {
        -1
    }
}

/// The first column not as long as the first, or -1.
pub open spec fn table_uneven(tv: Seq<(Seq<char>, Seq<ValueModel>)>) -> int
    decreases tv.len(),
{
    if tv.len() <= 1 {
        -1
    } else if table_uneven(tv.drop_last()) >= 0 {
        table_uneven(tv.drop_last())
    } else if tv.last().1.len() != tv[0].1.len() {
        tv.len() - 1
    } else {
        -1
    }
}

/// `r` is the table of content `tv` built as the library builds one: each
/// column as `Series::from_values` builds it from its name and values, then
/// the columns joined as `DataFrame::from_series` joins them.
pub open spec fn framed(tv: Seq<(Seq<char>, Seq<ValueModel>)>, r: Result<DataFrame, DataError>) -> bool {
    let u = first_untyped(tv);
    let w = table_uneven(tv);
    if u >= 0 {
        let vals = tv[u].1;
        let t = inferred_type(vals);
        r matches Err(DataError::TypeMismatch { expected, found }) && expected@ == expected_name(t) && found@
            == kind_name(vals[first_misfit(t, vals)])
    } else if w >= 0 {
        r matches Err(DataError::SchemaMismatch(m)) && m@ == uneven_message(tv[w].0, tv[w].1.len(), tv[0].1.len())
    } else {
        r matches Ok(df) && df.series().len() == tv.len() && df.height() == (if tv.len() == 0 {
            0
        } else {
            tv[0].1.len()
        }) && forall|k: int|
            0 <= k < tv.len() ==> (#[trigger] df.series()[k]).name_view() == tv[k].0 && df.series()[k].kind()
                == inferred_type(tv[k].1) && df.series()[k].cells() == tv[k].1
    }
}

/// An untyped column found among the first `k` is the first of all.
proof fn lemma_untyped_prefix(tv: Seq<(Seq<char>, Seq<ValueModel>)>, k: int)
    requires
        0 <= k <= tv.len(),
        first_untyped(tv.take(k)) >= 0,
    ensures
        first_untyped(tv) == first_untyped(tv.take(k)),
    decreases tv.len() - k,
{
    if k < tv.len() {
        assert(tv.take(k + 1).drop_last() =~= tv.take(k));
        lemma_untyped_prefix(tv, k + 1);
    } else {
        assert(tv.take(k) =~= tv);
    }
}

/// Columns with the content of a table have its uneven column.
proof fn lemma_uneven_table(cols: Seq<Series>, tv: Seq<(Seq<char>, Seq<ValueModel>)>)
    requires
        cols.len() == tv.len(),
        forall|k: int| 0 <= k < cols.len() ==> (#[trigger] cols[k]).cells() == tv[k].1,
    ensures
        super::dataframe::first_uneven(cols) == table_uneven(tv),
        table_uneven(tv) < tv.len(),
    decreases cols.len(),
{
    if cols.len() > 1 {
        let d = cols.drop_last();
        let e = tv.drop_last();
        assert forall|k: int| 0 <= k < d.len() implies (#[trigger] d[k]).cells() == e[k].1 by {
            assert(cols[k].cells() == tv[k].1);
        }
        lemma_uneven_table(d, e);
        assert(cols[0].cells() == tv[0].1);
        assert(cols[cols.len() - 1].cells() == tv[tv.len() - 1].1);
    }
}

/// The table built from the content of `t`, column by column.
pub(crate) fn frame_from_table(t: Vec<(String, Vec<Value>)>) -> (r: Result<DataFrame, DataError>)
    ensures
        framed(table_view(t@), r),
{
    let ghost tv = table_view(t@);
    let mut cols: Vec<Series> = Vec::new();
    let mut k: usize = 0;
    while k < t.len()
        invariant
            k <= t@.len(),
            tv == table_view(t@),
            tv.len() == t@.len(),
            cols@.len() == k,
            first_untyped(tv.take(k as int)) < 0,
            forall|c: int|
                0 <= c < k ==> (#[trigger] cols@[c]).name_view() == tv[c].0 && cols@[c].kind() == inferred_type(tv[c].1)
                    && cols@[c].cells() == tv[c].1,
        decreases t.len() - k,
    {
        assert(tv.take(k + 1).drop_last() =~= tv.take(k as int));
        assert(tv[k as int] == (t@[k as int].0@, value_views(t@[k as int].1@)));
        assert(tv.take(k + 1).last() == tv[k as int]);
        match Series::from_values(t[k].0.as_str(), t[k].1.as_slice()) {
            Ok(s) => {
                cols.push(s);
            },
            Err(e) => {
                proof {
                    lemma_untyped_prefix(tv, (k + 1) as int);
                }
                return Err(e);
            },
        }
        k = k + 1;
    }
    assert(tv.take(tv.len() as int) =~= tv);
    proof {
        lemma_uneven_table(cols@, tv);
    }
    let ghost cs = cols@;
    let r = DataFrame::from_series(cols);
    proof {
        if r is Ok {
            assert(r->Ok_0.series() == cs);
        }
    }
    r
}

impl DataFrame {
    /// The table's columns as names and values.
    pub(crate) fn table_of(&self) -> (r: Vec<(String, Vec<Value>)>)
        ensures
            table_view(r@) == frame_table(self.series()),
            table_rows(r@, self.height()),
    {
        let cols = self.series_ref();
        let mut out: Vec<(String, Vec<Value>)> = Vec::new();
        let mut k: usize = 0;
        while k < cols.len()
            invariant
                k <= cols@.len(),
                cols@ == self.series(),
                rect(cols@, self.height()),
                out@.len() == k,
                forall|c: int|
                    0 <= c < k ==> (#[trigger] out@[c]).0@ == cols@[c].name_view() && value_views(out@[c].1@)
                        == cols@[c].cells(),
            decreases cols.len() - k,
        {
            let vals = match cols[k].to_values() {
                Ok(v) => v,
                Err(_) => vstd::pervasive::unreached(),
            };
            out.push((cols[k].name_string(), vals));
            k = k + 1;
        }
        assert(table_view(out@) =~= frame_table(self.series()));
        assert forall|c: int| 0 <= c < out@.len() implies (#[trigger] out@[c]).1@.len() == self.height() by {
            assert(value_views(out@[c].1@).len() == out@[c].1@.len());
        }
        out
    }
}


/// The texts of a list of names.
pub open spec fn str_views(names: Seq<&str>) -> Seq<Seq<char>> {
    names.map_values(|s: &str| s@)
}

/// Owned copies of the names.
fn owned_names(names: &[&str]) -> (r: Vec<String>)
    ensures
        string_views(r@) == str_views(names@),
{
    let mut out: Vec<String> = Vec::new();
    let mut k: usize = 0;
    while k < names.len()
        invariant
            k <= names@.len(),
            out@.len() == k,
            forall|c: int| 0 <= c < k ==> (#[trigger] out@[c])@ == names@[c]@,
        decreases names.len() - k,
    {
        out.push(copy_str(names[k]));
        k = k + 1;
    }
    assert(string_views(out@) =~= str_views(names@));
    out
}

impl DataFrame {
    /// This table merged with `other` on the join columns `on`, SQL-style,
    /// as [`merged_view`] describes the merge of their contents; the merged
    /// columns are then built as [`framed`] says. A join column missing from
    /// either table fails with `ColumnNotFound`, an unknown `how` with
    /// `InvalidOperation`.
    pub fn merge(&self, other: &DataFrame, on: &[&str], how: &str, suffixes: (&str, &str)) -> (r: Result<Self, DataError>)
        ensures
            match merged_view(
                frame_table(self.series()),
                self.height(),
                frame_table(other.series()),
                other.height(),
                str_views(on@),
                how@,
                (suffixes.0@, suffixes.1@),
            ) {
                Ok(t) => framed(t, r),
                Err((missing, m)) => if missing {
                    r matches Err(DataError::ColumnNotFound(s)) && s@ == m
                } else {
                    r matches Err(DataError::InvalidOperation(s)) && s@ == m
                },
            },
    {
        let lt = self.table_of();
        let rt = other.table_of();
        let onv = owned_names(on);
        proof {
            lemma_merged_view(lt@, self.height(), rt@, other.height(), onv@, how@, (suffixes.0@, suffixes.1@));
        }
        match super::merge::merge(&lt, self.num_rows(), &rt, other.num_rows(), &onv, how, suffixes) {
            Ok(t) => frame_from_table(t),
            Err(e) => Err(e),
        }
    }

    /// The values of `value_col` spread over one row per distinct value of
    /// `index_col` and one column per distinct value of `column_col`, as
    /// [`reshaped_view`] describes it with the last value of each cell; the
    /// columns are then built as [`framed`] says. A missing column fails
    /// with `ColumnNotFound`.
    pub fn unstack(&self, index_col: &str, column_col: &str, value_col: &str) -> (r: Result<Self, DataError>)
        ensures
            match reshaped_view(frame_table(self.series()), self.height(), index_col@, column_col@, value_col@, unstack_cell()) {
                Ok(t) => framed(t, r),
                Err(m) => r matches Err(DataError::ColumnNotFound(s)) && s@ == m,
            },
    {
        let t = self.table_of();
        proof {
            lemma_reshaped_view(t@, self.height(), index_col@, column_col@, value_col@, unstack_cell());
        }
        match super::reshape::unstack(&t, self.num_rows(), index_col, column_col, value_col) {
            Ok(out) => frame_from_table(out),
            Err(e) => Err(e),
        }
    }

    /// A pivot: the same as [`DataFrame::unstack`] with the named index,
    /// columns and values.
    pub fn pivot(&self, index: &str, columns: &str, values: &str) -> (r: Result<Self, DataError>)
        ensures
            match reshaped_view(frame_table(self.series()), self.height(), index@, columns@, values@, unstack_cell()) {
                Ok(t) => framed(t, r),
                Err(m) => r matches Err(DataError::ColumnNotFound(s)) && s@ == m,
            },
    {
        self.unstack(index, columns, values)
    }

    /// A pivot table: as [`DataFrame::unstack`], but each cell aggregates
    /// the values that fall in it by `aggfunc`. The aggregations that give
    /// floating-point numbers are left to the caller.
    pub fn pivot_table(&self, index: &str, columns: &str, values: &str, aggfunc: &str) -> (r: Result<Self, DataError>)
        requires
            self.height() == 0 || !float_aggregation(aggfunc@),
        ensures
            match reshaped_view(frame_table(self.series()), self.height(), index@, columns@, values@, pivot_cell(aggfunc@)) {
                Ok(t) => framed(t, r),
                Err(m) => r matches Err(DataError::ColumnNotFound(s)) && s@ == m,
            },
    {
        let t = self.table_of();
        proof {
            lemma_reshaped_view(t@, self.height(), index@, columns@, values@, pivot_cell(aggfunc@));
        }
        match super::reshape::pivot_table(&t, self.num_rows(), index, columns, values, aggfunc) {
            Ok(out) => frame_from_table(out),
            Err(e) => Err(e),
        }
    }
}


/// The column `name` finds: the first of that name.
pub open spec fn named(cols: Seq<Series>, name: Seq<char>) -> Series {
    cols[first_named(cols, name)]
}

/// The content of the cross join of tables of `ln` and `rn` rows: every
/// left row paired with every right row, the left rows outermost; each
/// column takes the values of the first column of its name, and a right
/// name the left table has takes `_right`.
pub open spec fn crossed(left: Seq<Series>, ln: nat, right: Seq<Series>, rn: nat) -> Seq<(Seq<char>, Seq<ValueModel>)> {
    Seq::new(
        left.len(),
        |k: int| (left[k].name_view(), Seq::new(ln * rn, |p: int| named(left, left[k].name_view()).cells()[p / (rn as int)])),
    ) + Seq::new(
        right.len(),
        |k: int|
            {
                let n = right[k].name_view();
                (if first_named(left, n) >= 0 {
                    n + "_right"@
                } else {
                    n
                }, Seq::new(ln * rn, |p: int| named(right, n).cells()[p % (rn as int)]))
            },
    )
}

/// A place below `a * b` divided by `b` is below `a`.
proof fn lemma_div_below(p: int, a: int, b: int)
    requires
        0 <= p < a * b,
        b > 0,
    ensures
        0 <= p / b < a,
{
    vstd::arithmetic::div_mod::lemma_div_pos_is_pos(p, b);
    vstd::arithmetic::div_mod::lemma_fundamental_div_mod(p, b);
    vstd::arithmetic::div_mod::lemma_mod_pos_bound(p, b);
    let q = p / b;
    let m = p % b;
    assert(q < a) by (nonlinear_arith)
        requires
            p == b * q + m,
            0 <= m < b,
            0 <= p < a * b,
            b > 0,
    ;
}

/// Each value repeated `times` times in a row: the value at `p` is the one
/// at `p / times`.
fn repeat_each(src: &Vec<Value>, times: usize) -> (r: Vec<Value>)
    requires
        src@.len() * times <= usize::MAX,
    ensures
        r@.len() == src@.len() * times,
        forall|p: int| 0 <= p < r@.len() ==> (#[trigger] r@[p])@ == src@[p / (times as int)]@,
{
    let mut out: Vec<Value> = Vec::new();
    let mut i: usize = 0;
    while i < src.len()
        invariant
            i <= src@.len(),
            out@.len() == i * times,
            forall|p: int| 0 <= p < out@.len() ==> (#[trigger] out@[p])@ == src@[p / (times as int)]@,
        decreases src.len() - i,
    {
        let mut j: usize = 0;
        while j < times
            invariant
                i < src@.len(),
                j <= times,
                out@.len() == i * times + j,
                forall|p: int| 0 <= p < out@.len() ==> (#[trigger] out@[p])@ == src@[p / (times as int)]@,
            decreases times - j,
        {
            proof {
                lemma_fundamental_div_mod_converse(i * times + j, times as int, i as int, j as int);
            }
            out.push(copy_value(&src[i]));
            j = j + 1;
        }
        assert((i + 1) * times == i * times + times) by (nonlinear_arith);
        i = i + 1;
    }
    out
}

/// The values repeated `times` times over: the value at `p` is the one at
/// `p % len`.
fn repeat_all(src: &Vec<Value>, times: usize) -> (r: Vec<Value>)
    requires
        times * src@.len() <= usize::MAX,
    ensures
        r@.len() == times * src@.len(),
        forall|p: int| 0 <= p < r@.len() ==> (#[trigger] r@[p])@ == src@[p % (src@.len() as int)]@,
{
    let n = src.len();
    let mut out: Vec<Value> = Vec::new();
    let mut i: usize = 0;
    while i < times
        invariant
            n == src@.len(),
            i <= times,
            out@.len() == i * n,
            forall|p: int| 0 <= p < out@.len() ==> (#[trigger] out@[p])@ == src@[p % (n as int)]@,
        decreases times - i,
    {
        let mut j: usize = 0;
        while j < n
            invariant
                n == src@.len(),
                i < times,
                j <= n,
                out@.len() == i * n + j,
                forall|p: int| 0 <= p < out@.len() ==> (#[trigger] out@[p])@ == src@[p % (n as int)]@,
            decreases n - j,
        {
            proof {
                lemma_fundamental_div_mod_converse(i * n + j, n as int, i as int, j as int);
            }
            out.push(copy_value(&src[j]));
            j = j + 1;
        }
        assert((i + 1) * n == i * n + n) by (nonlinear_arith);
        i = i + 1;
    }
    out
}

impl DataFrame {
    /// Every row of this table paired with every row of `other`, this
    /// table's rows outermost, as [`crossed`] describes the content, the
    /// columns then built as [`framed`] says. Where either table has no
    /// rows, the two tables' columns side by side, as
    /// `DataFrame::from_series` joins them.
    pub fn cross_join(&self, other: &DataFrame) -> (r: Result<Self, DataError>)
        requires
            self.height() * other.height() <= usize::MAX,
        ensures
            ({
                let cols = self.series() + other.series();
                let u = first_uneven(cols);
                if self.height() * other.height() == 0 {
                    if cols.len() > 0 && u >= 0 {
                        r matches Err(DataError::SchemaMismatch(m)) && m@ == uneven_message(
                            cols[u].name_view(),
                            cols[u].cells().len(),
                            cols[0].cells().len(),
                        )
                    } else {
                        r matches Ok(df) && same_columns(df.series(), cols) && df.height() == (if cols.len() == 0 {
                            0
                        } else {
                            cols[0].cells().len()
                        })
                    }
                } else {
                    framed(crossed(self.series(), self.height(), other.series(), other.height()), r)
                }
            }),
    {
        let lcols = self.series_ref();
        let rcols = other.series_ref();
        let ln = self.num_rows();
        let rn = other.num_rows();
        if ln == 0 || rn == 0 {
            assert(self.height() * other.height() == 0) by (nonlinear_arith)
                requires
                    self.height() == 0 || other.height() == 0,
            ;
            let mut all = copy_columns(lcols);
            let rs = copy_columns(rcols);
            let ghost cols = self.series() + other.series();
            let ghost before = all@;
            let mut k: usize = 0;
            while k < rs.len()
                invariant
                    k <= rs@.len(),
                    same_columns(before, lcols@),
                    same_columns(rs@, rcols@),
                    cols == lcols@ + rcols@,
                    all@.len() == before.len() + k,
                    forall|c: int| 0 <= c < before.len() + k ==> same_series(#[trigger] all@[c], cols[c]),
                decreases rs.len() - k,
            {
                all.push(rs[k].clone());
                k = k + 1;
            }
            assert(same_columns(all@, cols));
            proof {
                lemma_uneven_same(all@, cols);
                lemma_uneven_range(cols);
                if cols.len() > 0 {
                    assert(same_series(all@[0], cols[0]));
                    let u = first_uneven(cols);
                    if u >= 0 {
                        assert(same_series(all@[u], cols[u]));
                    }
                }
            }
            let ghost cs = all@;
            let r = DataFrame::from_series(all);
            proof {
                if r is Ok {
                    assert(r->Ok_0.series() == cs);
                }
            }
            return r;
        }
        assert(self.height() * other.height() > 0) by (nonlinear_arith)
            requires
                self.height() > 0,
                other.height() > 0,
        ;
        let ghost lv = crossed(self.series(), self.height(), other.series(), other.height());
        let mut t: Vec<(String, Vec<Value>)> = Vec::new();
        let mut k: usize = 0;
        while k < lcols.len()
            invariant
                k <= lcols@.len(),
                lcols@ == self.series(),
                rect(lcols@, ln as nat),
                ln == self.height(),
                rn == other.height(),
                rn > 0,
                ln * rn <= usize::MAX,
                lv == crossed(self.series(), self.height(), other.series(), other.height()),
                t@.len() == k,
                forall|c: int| 0 <= c < k ==> #[trigger] table_view(t@)[c] == lv[c],
            decreases lcols.len() - k,
        {
            let name = lcols[k].name();
            proof {
                lemma_first_named(lcols@, name@);
            }
            let j = match find_series(lcols, name) {
                Some(j) => j,
                None => vstd::pervasive::unreached(),
            };
            let src = lcols[j].values_ref();
            let vals = repeat_each(src, rn);
            let ghost before = t@;
            t.push((lcols[k].name_string(), vals));
            proof {
                let cells = named(lcols@, lcols@[k as int].name_view()).cells();
                assert(lv[k as int] == (lcols@[k as int].name_view(), Seq::new((ln * rn) as nat, |p: int| cells[p / (rn as int)])));
                assert forall|p: int| 0 <= p < ln * rn implies #[trigger] value_views(vals@)[p] == cells[p / (rn as int)] by {
                    lemma_div_below(p, ln as int, rn as int);
                }
                assert(value_views(vals@) =~= lv[k as int].1);
                assert forall|c: int| 0 <= c < t@.len() implies #[trigger] table_view(t@)[c] == lv[c] by {
                    if c < k {
                        assert(table_view(t@)[c] == table_view(before)[c]);
                    }
                }
            }
            k = k + 1;
        }
        let mut k: usize = 0;
        while k < rcols.len()
            invariant
                k <= rcols@.len(),
                lcols@ == self.series(),
                rcols@ == other.series(),
                rect(rcols@, rn as nat),
                ln == self.height(),
                rn == other.height(),
                rn > 0,
                ln * rn <= usize::MAX,
                lv == crossed(self.series(), self.height(), other.series(), other.height()),
                lv.len() == lcols@.len() + rcols@.len(),
                t@.len() == lcols@.len() + k,
                forall|c: int| 0 <= c < lcols@.len() + k ==> #[trigger] table_view(t@)[c] == lv[c],
            decreases rcols.len() - k,
        {
            let name = rcols[k].name();
            proof {
                lemma_first_named(rcols@, name@);
            }
            let j = match find_series(rcols, name) {
                Some(j) => j,
                None => vstd::pervasive::unreached(),
            };
            let src = rcols[j].values_ref();
            let vals = repeat_all(src, ln);
            let out_name = if find_series(lcols, name).is_some() {
                let mut m = copy_str(name);
                m.append("_right");
                m
            } else {
                copy_str(name)
            };
            let ghost before = t@;
            t.push((out_name, vals));
            proof {
                let c0 = lcols@.len() + k;
                assert(lv[c0] == (out_name@, value_views(vals@)) ) by {
                    assert(value_views(vals@) =~= lv[c0].1);
                }
                assert forall|c: int| 0 <= c < t@.len() implies #[trigger] table_view(t@)[c] == lv[c] by {
                    if c < c0 {
                        assert(table_view(t@)[c] == table_view(before)[c]);
                    }
                }
            }
            k = k + 1;
        }
        assert(table_view(t@) =~= lv);
        frame_from_table(t)
    }
}


/// The names of the columns to stack: those given, or all the table's.
pub open spec fn stack_names(cols: Seq<Series>, given: Seq<Seq<char>>) -> Seq<Seq<char>> {
    if given.len() == 0 {
        names_of(cols)
    } else {
        given
    }
}

/// The names as borrowed texts.
fn name_refs<'a>(cols: &'a Vec<Series>) -> (r: Vec<&'a str>)
    ensures
        str_views(r@) == names_of(cols@),
{
    let mut out: Vec<&str> = Vec::new();
    let mut k: usize = 0;
    while k < cols.len()
        invariant
            k <= cols@.len(),
            out@.len() == k,
            forall|c: int| 0 <= c < k ==> (#[trigger] out@[c])@ == cols@[c].name_view(),
        decreases cols.len() - k,
    {
        out.push(cols[k].name());
        k = k + 1;
    }
    assert(str_views(out@) =~= names_of(cols@));
    out
}

/// The names, in a list of their own.
fn ref_list<'a>(names: &[&'a str]) -> (r: Vec<&'a str>)
    ensures
        r@ == names@,
{
    let mut out: Vec<&str> = Vec::new();
    let mut k: usize = 0;
    while k < names.len()
        invariant
            k <= names@.len(),
            out@ == names@.take(k as int),
        decreases names.len() - k,
    {
        out.push(names[k]);
        assert(names@.take(k + 1) =~= names@.take(k as int).push(names@[k as int]));
        k = k + 1;
    }
    assert(names@.take(names@.len() as int) =~= names@);
    out
}

/// The row places `0..n`, repeated `times` times over.
fn row_places(n: usize, times: usize) -> (r: Vec<i64>)
    requires
        times * n <= usize::MAX,
    ensures
        r@.len() == times * n,
        forall|p: int| 0 <= p < r@.len() ==> #[trigger] r@[p] == (p % (n as int)) as i64,
{
    let mut out: Vec<i64> = Vec::new();
    let mut c: usize = 0;
    while c < times
        invariant
            c <= times,
            times * n <= usize::MAX,
            out@.len() == c * n,
            forall|p: int| 0 <= p < out@.len() ==> #[trigger] out@[p] == (p % (n as int)) as i64,
        decreases times - c,
    {
        let mut i: usize = 0;
        while i < n
            invariant
                c < times,
                i <= n,
                out@.len() == c * n + i,
                forall|p: int| 0 <= p < out@.len() ==> #[trigger] out@[p] == (p % (n as int)) as i64,
            decreases n - i,
        {
            proof {
                lemma_fundamental_div_mod_converse(c * n + i, n as int, c as int, i as int);
            }
            out.push(i as i64);
            i = i + 1;
        }
        assert((c + 1) * n == c * n + n) by (nonlinear_arith);
        c = c + 1;
    }
    out
}

impl DataFrame {
    /// The named columns (all of them when none are named) stacked into
    /// three: `row` holds the row places, `column` the column names and
    /// `value` the display text of each value ([`header`]), one row per
    /// column and row, columns outermost. No names to stack fail with
    /// `EmptyData`, a name no column has with `ColumnNotFound`.
    pub fn stack(&self, columns: &[&str]) -> (r: Result<Self, DataError>)
        requires
            self.height() * stack_names(self.series(), str_views(columns@)).len() <= usize::MAX,
        ensures
            ({
                let names = stack_names(self.series(), str_views(columns@));
                let n = self.height();
                let total = (n * names.len()) as nat;
                let m = first_missing_name(self.series(), names);
                if names.len() == 0 {
                    r matches Err(DataError::EmptyData)
                } else if m >= 0 {
                    r matches Err(DataError::ColumnNotFound(c)) && c@ == names[m]
                } else {
                    r matches Ok(df) && df.height() == total && df.series().len() == 3
                        && df.series()[0].name_view() == "row"@ && df.series()[0].kind() == SeriesType::Int64
                        && df.series()[0].cells() == Seq::new(total, |p: int| ValueModel::Int((p % (n as int)) as i64))
                        && df.series()[1].name_view() == "column"@ && df.series()[1].kind() == SeriesType::Utf8
                        && df.series()[1].cells() == Seq::new(total, |p: int| ValueModel::Str(names[p / (n as int)]))
                        && df.series()[2].name_view() == "value"@ && df.series()[2].kind() == SeriesType::Utf8
                        && df.series()[2].cells() == Seq::new(
                        total,
                        |p: int| ValueModel::Str(header(named(self.series(), names[p / (n as int)]).cells()[p % (n as int)])),
                    )
                }
            }),
    {
        let cols = self.series_ref();
        let names: Vec<&str> = if columns.len() == 0 {
            name_refs(cols)
        } else {
            ref_list(columns)
        };
        let ghost nv = stack_names(self.series(), str_views(columns@));
        assert(str_views(names@) == nv);
        if names.len() == 0 {
            return Err(DataError::EmptyData);
        }
        let sel = self.select(names.as_slice())?;
        let sc = sel.series_ref();
        let n = self.num_rows();
        let len = names.len();
        assert(sc@.len() == len);
        assert(len * n == n * len) by (nonlinear_arith);
        let ghost total = (n * len) as nat;
        let rows = row_places(n, len);
        let row = Series::from_ints("row", rows);
        assert(row.cells() =~= Seq::new(total, |p: int| ValueModel::Int((p % (n as int)) as i64)));
        let mut names_col: Vec<Value> = Vec::new();
        let mut vals: Vec<Value> = Vec::new();
        let mut c: usize = 0;
        while c < len
            invariant
                c <= len,
                len == names@.len(),
                str_views(names@) == nv,
                n == self.height(),
                sc@.len() == len,
                rect(sc@, n as nat),
                selected(sc@, self.series(), nv),
                len * n <= usize::MAX,
                names_col@.len() == c * n,
                vals@.len() == c * n,
                forall|p: int| 0 <= p < names_col@.len() ==> (#[trigger] names_col@[p])@ == ValueModel::Str(nv[p / (n as int)]),
                forall|p: int|
                    0 <= p < vals@.len() ==> (#[trigger] vals@[p])@ == ValueModel::Str(
                        header(named(self.series(), nv[p / (n as int)]).cells()[p % (n as int)]),
                    ),
                forall|p: int| 0 <= p < names_col@.len() ==> fits_text(#[trigger] names_col@[p]@),
                forall|p: int| 0 <= p < vals@.len() ==> fits_text(#[trigger] vals@[p]@),
            decreases len - c,
        {
            let src = sc[c].values_ref();
            assert(same_series(sc@[c as int], self.series()[first_named(self.series(), nv[c as int])]));
            assert(str_views(names@)[c as int] == names@[c as int]@);
            let mut i: usize = 0;
            while i < n
                invariant
                    c < len,
                    i <= n,
                    len == names@.len(),
                    str_views(names@) == nv,
                    names@[c as int]@ == nv[c as int],
                    value_views(src@) == named(self.series(), nv[c as int]).cells(),
                    src@.len() == n,
                    names_col@.len() == c * n + i,
                    vals@.len() == c * n + i,
                    forall|p: int| 0 <= p < names_col@.len() ==> (#[trigger] names_col@[p])@ == ValueModel::Str(nv[p / (n as int)]),
                    forall|p: int|
                        0 <= p < vals@.len() ==> (#[trigger] vals@[p])@ == ValueModel::Str(
                            header(named(self.series(), nv[p / (n as int)]).cells()[p % (n as int)]),
                        ),
                    forall|p: int| 0 <= p < names_col@.len() ==> fits_text(#[trigger] names_col@[p]@),
                    forall|p: int| 0 <= p < vals@.len() ==> fits_text(#[trigger] vals@[p]@),
                decreases n - i,
            {
                proof {
                    lemma_fundamental_div_mod_converse(c * n + i, n as int, c as int, i as int);
                    assert(value_views(src@)[i as int] == src@[i as int]@);
                }
                names_col.push(Value::String(copy_str(names[c])));
                vals.push(Value::String(header_of(&src[i])));
                i = i + 1;
            }
            assert((c + 1) * n == c * n + n) by (nonlinear_arith);
            c = c + 1;
        }
        let column = Series::assemble(copy_str("column"), SeriesType::Utf8, names_col);
        let value = Series::assemble(copy_str("value"), SeriesType::Utf8, vals);
        assert(column.cells() =~= Seq::new(total, |p: int| ValueModel::Str(nv[p / (n as int)])));
        assert(value.cells() =~= Seq::new(
            total,
            |p: int| ValueModel::Str(header(named(self.series(), nv[p / (n as int)]).cells()[p % (n as int)])),
        ));
        let mut out: Vec<Series> = Vec::new();
        out.push(row);
        out.push(column);
        out.push(value);
        Ok(DataFrame::make(out, n * len))
    }
}

/// A value a text column can hold.
pub open spec fn fits_text(v: ValueModel) -> bool {
    super::series::fits(SeriesType::Utf8, v)
}


/// A name given, or the default.
pub open spec fn name_or(o: Option<&str>, default: Seq<char>) -> Seq<char> {
    match o {
        Some(v) => v@,
        None => default,
    }
}

/// The value columns of a melt: those given, or all the table's columns
/// not among the identifier columns.
pub open spec fn melt_values(cols: Seq<Series>, ids: Seq<Seq<char>>, given: Seq<Seq<char>>) -> Seq<Seq<char>> {
    if given.len() == 0 {
        kept_names(cols, ids)
    } else {
        given
    }
}

/// The content of a melt of a table of `n` rows: each identifier column
/// repeated once per value column; a column `var` of value column names and
/// a column `val` of their values, one row per value column and row, value
/// columns outermost.
pub open spec fn melted(
    cols: Seq<Series>,
    n: nat,
    ids: Seq<Seq<char>>,
    vals: Seq<Seq<char>>,
    var: Seq<char>,
    val: Seq<char>,
) -> Seq<(Seq<char>, Seq<ValueModel>)> {
    let total = (n * vals.len()) as nat;
    Seq::new(ids.len(), |k: int| (ids[k], Seq::new(total, |p: int| named(cols, ids[k]).cells()[p % (n as int)]))) + seq![
        (var, Seq::new(total, |p: int| ValueModel::Str(vals[p / (n as int)]))),
        (val, Seq::new(total, |p: int| named(cols, vals[p / (n as int)]).cells()[p % (n as int)])),
    ]
}

/// The values of the columns from `from` on, one after another: the value
/// at `p` is row `p % n` of column `from + p / n`.
fn stacked_values(cols: &Vec<Series>, from: usize, n: usize) -> (r: Vec<Value>)
    requires
        from <= cols@.len(),
        rect(cols@, n as nat),
        (cols@.len() - from) * n <= usize::MAX,
    ensures
        r@.len() == (cols@.len() - from) * n,
        forall|p: int| 0 <= p < r@.len() ==> (#[trigger] r@[p])@ == cols@[from + p / (n as int)].cells()[p % (n as int)],
{
    let mut out: Vec<Value> = Vec::new();
    let mut c: usize = from;
    while c < cols.len()
        invariant
            from <= c <= cols@.len(),
            rect(cols@, n as nat),
            (cols@.len() - from) * n <= usize::MAX,
            out@.len() == (c - from) * n,
            forall|p: int| 0 <= p < out@.len() ==> (#[trigger] out@[p])@ == cols@[from + p / (n as int)].cells()[p % (n as int)],
        decreases cols.len() - c,
    {
        let src = cols[c].values_ref();
        assert(cols@[c as int].cells().len() == n);
        let mut i: usize = 0;
        while i < n
            invariant
                from <= c < cols@.len(),
                i <= n,
                value_views(src@) == cols@[c as int].cells(),
                src@.len() == n,
                out@.len() == (c - from) * n + i,
                forall|p: int|
                    0 <= p < out@.len() ==> (#[trigger] out@[p])@ == cols@[from + p / (n as int)].cells()[p % (n as int)],
            decreases n - i,
        {
            proof {
                lemma_fundamental_div_mod_converse((c - from) * n + i, n as int, (c - from) as int, i as int);
                assert(value_views(src@)[i as int] == src@[i as int]@);
            }
            out.push(copy_value(&src[i]));
            i = i + 1;
        }
        assert((c + 1 - from) * n == (c - from) * n + n) by (nonlinear_arith);
        c = c + 1;
    }
    out
}

/// The names as values, each repeated `n` times in a row.
fn repeated_names(names: &Vec<&str>, n: usize) -> (r: Vec<Value>)
    requires
        names@.len() * n <= usize::MAX,
    ensures
        r@.len() == names@.len() * n,
        forall|p: int| 0 <= p < r@.len() ==> (#[trigger] r@[p])@ == ValueModel::Str(str_views(names@)[p / (n as int)]),
{
    let mut vs: Vec<Value> = Vec::new();
    let mut k: usize = 0;
    while k < names.len()
        invariant
            k <= names@.len(),
            vs@.len() == k,
            forall|c: int| 0 <= c < k ==> (#[trigger] vs@[c])@ == ValueModel::Str(names@[c]@),
        decreases names.len() - k,
    {
        vs.push(Value::String(copy_str(names[k])));
        k = k + 1;
    }
    let out = repeat_each(&vs, n);
    assert forall|p: int| 0 <= p < out@.len() implies (#[trigger] out@[p])@ == ValueModel::Str(
        str_views(names@)[p / (n as int)],
    ) by {
        lemma_div_below(p, names@.len() as int, n as int);
        assert(str_views(names@)[p / (n as int)] == names@[p / (n as int)]@);
    }
    out
}

impl DataFrame {
    /// The table melted from wide to long: the identifier columns repeated
    /// once per value column, then a column `var_name` (default `variable`)
    /// of value column names and a column `value_name` (default `value`) of
    /// their values, as [`melted`] describes the content; the columns are
    /// built as [`framed`] says. No value columns fail with `EmptyData`, a
    /// name no column has with `ColumnNotFound` (identifier columns first).
    pub fn melt(&self, id_vars: &[&str], value_vars: &[&str], var_name: Option<&str>, value_name: Option<&str>) -> (r:
        Result<Self, DataError>)
        requires
            self.height() * melt_values(self.series(), str_views(id_vars@), str_views(value_vars@)).len() <= usize::MAX,
        ensures
            ({
                let ids = str_views(id_vars@);
                let vals = melt_values(self.series(), ids, str_views(value_vars@));
                let m = first_missing_name(self.series(), ids + vals);
                if vals.len() == 0 {
                    r matches Err(DataError::EmptyData)
                } else if m >= 0 {
                    r matches Err(DataError::ColumnNotFound(c)) && c@ == (ids + vals)[m]
                } else {
                    framed(
                        melted(self.series(), self.height(), ids, vals, name_or(var_name, "variable"@), name_or(value_name, "value"@)),
                        r,
                    )
                }
            }),
    {
        let var = match var_name {
            Some(v) => v,
            None => "variable",
        };
        let val = match value_name {
            Some(v) => v,
            None => "value",
        };
        let cols = self.series_ref();
        let vals: Vec<&str> = if value_vars.len() == 0 {
            kept_refs(cols, id_vars)
        } else {
            ref_list(value_vars)
        };
        let ghost ids = str_views(id_vars@);
        let ghost vv = melt_values(self.series(), ids, str_views(value_vars@));
        assert(str_views(vals@) == vv);
        if vals.len() == 0 {
            return Err(DataError::EmptyData);
        }
        let mut all = ref_list(id_vars);
        let mut k: usize = 0;
        while k < vals.len()
            invariant
                k <= vals@.len(),
                all@ == id_vars@ + vals@.take(k as int),
            decreases vals.len() - k,
        {
            all.push(vals[k]);
            assert(vals@.take(k + 1) =~= vals@.take(k as int).push(vals@[k as int]));
            k = k + 1;
        }
        assert(vals@.take(vals@.len() as int) =~= vals@);
        assert(str_views(all@) =~= ids + vv);
        let sel = self.select(all.as_slice())?;
        let sc = sel.series_ref();
        let n = self.num_rows();
        let m = vals.len();
        let ni = id_vars.len();
        let ghost total = (n * m) as nat;
        assert(m * n == n * m) by (nonlinear_arith);
        let ghost tv = melted(self.series(), self.height(), ids, vv, var@, val@);
        let mut t: Vec<(String, Vec<Value>)> = Vec::new();
        let mut k: usize = 0;
        while k < ni
            invariant
                k <= ni,
                ni == id_vars@.len(),
                ids == str_views(id_vars@),
                sc@.len() == ni + m,
                rect(sc@, n as nat),
                selected(sc@, self.series(), ids + vv),
                n == self.height(),
                m == vv.len(),
                m * n == n * m,
                n * m <= usize::MAX,
                total == n * m,
                tv == melted(self.series(), self.height(), ids, vv, var@, val@),
                t@.len() == k,
                forall|c: int| 0 <= c < k ==> #[trigger] table_view(t@)[c] == tv[c],
            decreases ni - k,
        {
            let src = sc[k].values_ref();
            let vals_k = repeat_all(src, m);
            let ghost before = t@;
            t.push((copy_str(id_vars[k]), vals_k));
            proof {
                assert((ids + vv)[k as int] == ids[k as int]);
                assert(same_series(sc@[k as int], named(self.series(), ids[k as int])));
                let cells = named(self.series(), ids[k as int]).cells();
                assert forall|p: int| 0 <= p < total implies #[trigger] value_views(vals_k@)[p] == cells[p % (n as int)] by {
                    assert(n > 0) by (nonlinear_arith)
                        requires
                            0 <= p < n * m,
                    ;
                    vstd::arithmetic::div_mod::lemma_mod_pos_bound(p, n as int);
                    assert(value_views(src@)[p % (n as int)] == src@[p % (n as int)]@);
                }
                assert(value_views(vals_k@) =~= tv[k as int].1);
                assert(str_views(id_vars@)[k as int] == id_vars@[k as int]@);
                assert forall|c: int| 0 <= c < t@.len() implies #[trigger] table_view(t@)[c] == tv[c] by {
                    if c < k {
                        assert(table_view(t@)[c] == table_view(before)[c]);
                    }
                }
            }
            k = k + 1;
        }
        let names_col = repeated_names(&vals, n);
        let ghost before = t@;
        t.push((copy_str(var), names_col));
        assert(value_views(names_col@) =~= tv[ni as int].1);
        let values_col = stacked_values(sc, ni, n);
        proof {
            assert forall|p: int| 0 <= p < total implies #[trigger] value_views(values_col@)[p] == tv[ni + 1].1[p] by {
                lemma_div_below(p, m as int, n as int);
                let q = p / (n as int);
                assert((ids + vv)[ni + q] == vv[q]);
                assert(same_series(sc@[ni + q], named(self.series(), vv[q])));
            }
            assert(value_views(values_col@) =~= tv[ni + 1].1);
        }
        t.push((copy_str(val), values_col));
        proof {
            assert forall|c: int| 0 <= c < t@.len() implies #[trigger] table_view(t@)[c] == tv[c] by {
                if c < ni {
                    assert(table_view(t@)[c] == table_view(before)[c]);
                }
            }
            assert(table_view(t@) =~= tv);
        }
        frame_from_table(t)
    }
}


/// The position of the first pair named `name`, or -1.
pub open spec fn first_pair(pairs: Seq<(String, Value)>, name: Seq<char>) -> int
    decreases pairs.len(),
{
    if pairs.len() == 0 {
        -1
    } else if first_pair(pairs.drop_last(), name) >= 0 {
        first_pair(pairs.drop_last(), name)
    } else if pairs.last().0@ == name {
        pairs.len() - 1
    } else {
        -1
    }
}

/// The position of the first pair named `name`.
fn find_pair(pairs: &Vec<(String, Value)>, name: &str) -> (r: Option<usize>)
    ensures
        match r {
            Some(q) => first_pair(pairs@, name@) == q && q < pairs@.len(),
            None => first_pair(pairs@, name@) < 0,
        },
{
    let mut i: usize = 0;
    while i < pairs.len()
        invariant
            i <= pairs@.len(),
            first_pair(pairs@.take(i as int), name@) < 0,
        decreases pairs.len() - i,
    {
        assert(pairs@.take(i + 1).drop_last() =~= pairs@.take(i as int));
        assert(pairs@.take(i + 1).last() == pairs@[i as int]);
        if str_eq(pairs[i].0.as_str(), name) {
            proof {
                lemma_pair_prefix(pairs@, name@, (i + 1) as int);
            }
            return Some(i);
        }
        i = i + 1;
    }
    assert(pairs@.take(pairs@.len() as int) =~= pairs@);
    None
}

/// A pair found among the first `k` is the first of that name.
proof fn lemma_pair_prefix(pairs: Seq<(String, Value)>, name: Seq<char>, k: int)
    requires
        0 <= k <= pairs.len(),
        first_pair(pairs.take(k), name) >= 0,
    ensures
        first_pair(pairs, name) == first_pair(pairs.take(k), name),
    decreases pairs.len() - k,
{
    if k < pairs.len() {
        assert(pairs.take(k + 1).drop_last() =~= pairs.take(k));
        lemma_pair_prefix(pairs, name, k + 1);
    } else {
        assert(pairs.take(k) =~= pairs);
    }
}

/// The content of a table with `column` exploded: the other columns, each
/// the first of its name, then `column`. A list value would become one row
/// per item; the values of this library hold no lists, so every row stays.
pub open spec fn exploded(cols: Seq<Series>, column: Seq<char>) -> Seq<(Seq<char>, Seq<ValueModel>)> {
    let kn = kept_names(cols, seq![column]);
    Seq::new(kn.len(), |k: int| (kn[k], named(cols, kn[k]).cells())) + seq![(column, named(cols, column).cells())]
}

impl DataFrame {
    /// The table turned on its side: a `column` column of the column names,
    /// then a column `row_i` for each row `i` holding the display text
    /// ([`header`]) of that row's values. A table with no rows or no
    /// columns stays as it is.
    pub fn transpose(&self) -> (r: Result<Self, DataError>)
        ensures
            self.height() == 0 || self.series().len() == 0 ==> (r matches Ok(df) && same_columns(df.series(), self.series())
                && df.height() == self.height()),
            self.height() > 0 && self.series().len() > 0 ==> (r matches Ok(df) && df.height() == self.series().len()
                && df.series().len() == self.height() + 1 && df.series()[0].name_view() == "column"@
                && df.series()[0].kind() == SeriesType::Utf8 && df.series()[0].cells() == names_of(self.series()).map_values(
                |n: Seq<char>| ValueModel::Str(n),
            ) && forall|j: int|
                1 <= j <= self.height() ==> (#[trigger] df.series()[j]).name_view() == "row_"@ + dec((j - 1) as nat)
                    && df.series()[j].kind() == SeriesType::Utf8 && df.series()[j].cells() == Seq::new(
                    self.series().len(),
                    |k: int| ValueModel::Str(header(self.series()[k].cells()[j - 1])),
                )),
    {
        let cols = self.series_ref();
        let h = self.num_rows();
        let c = cols.len();
        if h == 0 || c == 0 {
            return Ok(DataFrame::make(copy_columns(cols), h));
        }
        let mut names: Vec<Value> = Vec::new();
        let mut k: usize = 0;
        while k < c
            invariant
                c == cols@.len(),
                k <= c,
                names@.len() == k,
                forall|q: int| 0 <= q < k ==> (#[trigger] names@[q])@ == ValueModel::Str(cols@[q].name_view()),
            decreases c - k,
        {
            names.push(Value::String(cols[k].name_string()));
            k = k + 1;
        }
        let first = Series::assemble(copy_str("column"), SeriesType::Utf8, names);
        assert(first.cells() =~= names_of(self.series()).map_values(|n: Seq<char>| ValueModel::Str(n)));
        let mut out: Vec<Series> = Vec::new();
        out.push(first);
        let mut i: usize = 0;
        while i < h
            invariant
                i <= h,
                h == self.height(),
                c == cols@.len(),
                cols@ == self.series(),
                rect(cols@, h as nat),
                out@.len() == i + 1,
                out@[0].name_view() == "column"@,
                out@[0].kind() == SeriesType::Utf8,
                out@[0].cells() == names_of(self.series()).map_values(|n: Seq<char>| ValueModel::Str(n)),
                forall|q: int| 0 <= q < out@.len() ==> (#[trigger] out@[q]).cells().len() == c,
                forall|j: int|
                    1 <= j <= i ==> (#[trigger] out@[j]).name_view() == "row_"@ + dec((j - 1) as nat) && out@[j].kind()
                        == SeriesType::Utf8 && out@[j].cells() == Seq::new(
                        c as nat,
                        |k: int| ValueModel::Str(header(cols@[k].cells()[j - 1])),
                    ),
            decreases h - i,
        {
            let mut vals: Vec<Value> = Vec::new();
            let mut k: usize = 0;
            while k < c
                invariant
                    i < h,
                    c == cols@.len(),
                    rect(cols@, h as nat),
                    k <= c,
                    vals@.len() == k,
                    forall|q: int| 0 <= q < k ==> (#[trigger] vals@[q])@ == ValueModel::Str(header(cols@[q].cells()[i as int])),
                decreases c - k,
            {
                let src = cols[k].values_ref();
                assert(value_views(src@)[i as int] == src@[i as int]@);
                vals.push(Value::String(header_of(&src[i])));
                k = k + 1;
            }
            let mut name = copy_str("row_");
            push_dec(&mut name, i as u128);
            let col = Series::assemble(name, SeriesType::Utf8, vals);
            assert(col.cells() =~= Seq::new(c as nat, |k: int| ValueModel::Str(header(cols@[k].cells()[i as int]))));
            let ghost before = out@;
            out.push(col);
            proof {
                assert forall|j: int| 1 <= j <= i + 1 implies (#[trigger] out@[j]).name_view() == "row_"@ + dec((j - 1) as nat)
                    && out@[j].kind() == SeriesType::Utf8 && out@[j].cells() == Seq::new(
                    c as nat,
                    |k: int| ValueModel::Str(header(cols@[k].cells()[j - 1])),
                ) by {
                    if j <= i {
                        assert(out@[j] == before[j]);
                    }
                }
            }
            i = i + 1;
        }
        Ok(DataFrame::make(out, c))
    }

    /// The table with the list values of `column` spread one item per row,
    /// the other columns (each the first of its name) first and `column`
    /// last, as [`exploded`] describes the content; the columns are built as
    /// [`framed`] says. `ColumnNotFound` if there is no such column.
    pub fn explode(&self, column: &str) -> (r: Result<Self, DataError>)
        ensures
            first_named(self.series(), column@) < 0 ==> (r matches Err(DataError::ColumnNotFound(c)) && c@ == column@),
            first_named(self.series(), column@) >= 0 ==> framed(exploded(self.series(), column@), r),
    {
        let target = self.column(column)?;
        let cols = self.series_ref();
        let mut one: Vec<&str> = Vec::new();
        one.push(column);
        assert(one@.map_values(|c: &str| c@) =~= seq![column@]);
        let kept = kept_refs(cols, one.as_slice());
        let ghost kn = kept_names(self.series(), seq![column@]);
        assert(kept@.map_values(|c: &str| c@) == kn);
        proof {
            assert forall|q: int| 0 <= q < kn.len() implies first_named(self.series(), #[trigger] kn[q]) >= 0 by {
                assert(kn[q] == kept@[q]@);
            }
            lemma_no_missing_name(self.series(), kn);
        }
        let sel = match self.select(kept.as_slice()) {
            Ok(df) => df,
            Err(_) => vstd::pervasive::unreached(),
        };
        let mut t = sel.table_of();
        let ghost tv = exploded(self.series(), column@);
        let vals = match target.to_values() {
            Ok(v) => v,
            Err(_) => vstd::pervasive::unreached(),
        };
        let ghost before = t@;
        t.push((copy_str(column), vals));
        proof {
            assert(table_view(before) == frame_table(sel.series()));
            assert(before.len() == table_view(before).len());
            assert(before.len() == kn.len());
            assert(t@.len() == kn.len() + 1);
            assert forall|q: int| 0 <= q < t@.len() implies #[trigger] table_view(t@)[q] == tv[q] by {
                assert(table_view(t@)[q] == (t@[q].0@, value_views(t@[q].1@)));
                if q < kn.len() {
                    assert(t@[q] == before[q]);
                    assert(table_view(before)[q] == (before[q].0@, value_views(before[q].1@)));
                    assert(table_view(t@)[q] == table_view(before)[q]);
                    assert(same_series(sel.series()[q], named(self.series(), kn[q])));
                    lemma_first_named(self.series(), kn[q]);
                }
            }
            assert(table_view(t@) =~= tv);
        }
        frame_from_table(t)
    }

    /// Every column, each the first of its name, with its missing values
    /// filled by the value of the first pair of that name, where there is
    /// one and the value fits the column (see [`fill_or_keep`]).
    pub fn fillna_map(&self, column_values: &Vec<(String, Value)>) -> (r: Result<Self, DataError>)
        ensures
            r matches Ok(df) && df.height() == (if self.series().len() == 0 {
                0
            } else {
                self.height()
            }) && df.series().len() == self.series().len() && forall|k: int|
                0 <= k < df.series().len() ==> {
                    let n = self.series()[k].name_view();
                    let src = named(self.series(), n);
                    let q = first_pair(column_values@, n);
                    &&& (#[trigger] df.series()[k]).name_view() == n
                    &&& df.series()[k].kind() == src.kind()
                    &&& df.series()[k].cells() == if q >= 0 {
                        fill_or_keep(src, column_values@[q].1@)
                    } else {
                        src.cells()
                    }
                },
    {
        let cols = self.series_ref();
        let mut out: Vec<Series> = Vec::new();
        let mut k: usize = 0;
        while k < cols.len()
            invariant
                k <= cols@.len(),
                cols@ == self.series(),
                rect(cols@, self.height()),
                out@.len() == k,
                forall|c: int| 0 <= c < k ==> (#[trigger] out@[c]).cells().len() == self.height(),
                forall|c: int|
                    0 <= c < k ==> {
                        let n = cols@[c].name_view();
                        let src = named(cols@, n);
                        let q = first_pair(column_values@, n);
                        &&& (#[trigger] out@[c]).name_view() == n
                        &&& out@[c].kind() == src.kind()
                        &&& out@[c].cells() == if q >= 0 {
                            fill_or_keep(src, column_values@[q].1@)
                        } else {
                            src.cells()
                        }
                    },
            decreases cols.len() - k,
        {
            let name = cols[k].name();
            proof {
                lemma_first_named(cols@, name@);
            }
            let j = match find_series(cols, name) {
                Some(j) => j,
                None => vstd::pervasive::unreached(),
            };
            let src = &cols[j];
            let col = match find_pair(column_values, name) {
                Some(q) => match src.fillna(&column_values[q].1) {
                    Ok(s) => s,
                    Err(_) => src.clone(),
                },
                None => src.clone(),
            };
            out.push(col);
            k = k + 1;
        }
        let h = if cols.len() == 0 {
            0
        } else {
            self.num_rows()
        };
        Ok(DataFrame::make(out, h))
    }
}


/// How many of the values are `v`.
pub open spec fn occurrences(vals: Seq<ValueModel>, v: ValueModel) -> nat
    decreases vals.len(),
{
    if vals.len() == 0 {
        0
    } else {
        occurrences(vals.drop_last(), v) + if vals.last() == v {
            1nat
        } else {
            0nat
        }
    }
}

/// The first place of `v` among the values, or -1.
pub open spec fn first_row(vals: Seq<ValueModel>, v: ValueModel) -> int
    decreases vals.len(),
{
    if vals.len() == 0 {
        -1
    } else if first_row(vals.drop_last(), v) >= 0 {
        first_row(vals.drop_last(), v)
    } else if vals.last() == v {
        vals.len() - 1
    } else {
        -1
    }
}

/// `vals` and `counts` count the values of `cells`: each value once, with
/// the number of times it occurs; more frequent values first, values as
/// frequent in the order they first occur.
pub open spec fn counted(cells: Seq<ValueModel>, vals: Seq<ValueModel>, counts: Seq<ValueModel>) -> bool {
    &&& vals.len() == counts.len()
    &&& forall|i: int| 0 <= i < cells.len() ==> vals.contains(#[trigger] cells[i])
    &&& forall|j: int| 0 <= j < vals.len() ==> cells.contains(#[trigger] vals[j])
    &&& forall|j: int, k: int| 0 <= j < k < vals.len() ==> vals[j] != vals[k]
    &&& forall|j: int| 0 <= j < vals.len() ==> #[trigger] counts[j] == ValueModel::Int(occurrences(cells, vals[j]) as i64)
    &&& forall|j: int, k: int|
        #![trigger vals[j], vals[k]]
        0 <= j < k < vals.len() ==> occurrences(cells, vals[j]) > occurrences(cells, vals[k]) || (occurrences(cells, vals[j])
            == occurrences(cells, vals[k]) && first_row(cells, vals[j]) < first_row(cells, vals[k]))
}

/// What `first_row` finds holds `v`.
proof fn lemma_first_row_found(vals: Seq<ValueModel>, v: ValueModel)
    ensures
        first_row(vals, v) < vals.len(),
        first_row(vals, v) >= 0 ==> vals[first_row(vals, v)] == v,
    decreases vals.len(),
{
    if vals.len() > 0 {
        lemma_first_row_found(vals.drop_last(), v);
    }
}

/// The first place holding `v` is what `first_row` finds.
proof fn lemma_first_row_is(vals: Seq<ValueModel>, v: ValueModel, f: int)
    requires
        0 <= f < vals.len(),
        vals[f] == v,
        forall|q: int| 0 <= q < f ==> vals[q] != v,
    ensures
        first_row(vals, v) == f,
    decreases vals.len(),
{
    let d = vals.drop_last();
    if f < vals.len() - 1 {
        lemma_first_row_is(d, v, f);
    } else {
        lemma_first_row_found(d, v);
        if first_row(d, v) >= 0 {
            assert(vals[first_row(d, v)] == v);
        }
    }
}

/// Counting one more value.
proof fn lemma_occurrences_step(vals: Seq<ValueModel>, i: int, v: ValueModel)
    requires
        0 <= i < vals.len(),
    ensures
        occurrences(vals.take(i + 1), v) == occurrences(vals.take(i), v) + if vals[i] == v {
            1nat
        } else {
            0nat
        },
        occurrences(vals.take(i), v) <= i,
    decreases i,
{
    assert(vals.take(i + 1).drop_last() =~= vals.take(i));
    if i > 0 {
        lemma_occurrences_step(vals, i - 1, v);
    } else {
        assert(vals.take(0) =~= Seq::<ValueModel>::empty());
    }
}

/// Whether row `a` goes before row `b` of a value count: more frequent
/// first, then in order of first occurrence.
pub open spec fn ranks_before(cnts: Seq<usize>, a: int, b: int) -> bool {
    cnts[a] > cnts[b] || (cnts[a] == cnts[b] && a < b)
}

impl DataFrame {
    /// The distinct values of the first column named `column` with the
    /// number of times each occurs, in a column of that name and a `count`
    /// column; more frequent values first (see [`counted`]).
    /// `ColumnNotFound` if there is no such column.
    pub fn value_counts(&self, column: &str) -> (r: Result<Self, DataError>)
        requires
            self.height() <= i64::MAX,
        ensures
            first_named(self.series(), column@) < 0 ==> (r matches Err(DataError::ColumnNotFound(c)) && c@ == column@),
            first_named(self.series(), column@) >= 0 ==> (r matches Ok(df) && df.series().len() == 2
                && df.series()[0].name_view() == column@ && df.series()[0].kind() == inferred_type(df.series()[0].cells())
                && df.series()[1].name_view() == "count"@ && df.series()[1].kind() == SeriesType::Int64
                && df.height() == df.series()[0].cells().len() && counted(
                named(self.series(), column@).cells(),
                df.series()[0].cells(),
                df.series()[1].cells(),
            )),
    {
        let src = self.column(column)?;
        let _cols = self.series_ref();
        proof {
            lemma_first_named(self.series(), column@);
        }
        let vs = src.values_ref();
        let n = vs.len();
        let ghost cells = value_views(vs@);
        assert(cells == named(self.series(), column@).cells());
        let mut dvals: Vec<Value> = Vec::new();
        let mut firsts: Vec<usize> = Vec::new();
        let mut cnts: Vec<usize> = Vec::new();
        let mut i: usize = 0;
        while i < n
            invariant
                i <= n,
                n == vs@.len(),
                cells == value_views(vs@),
                forall|q: int| 0 <= q < n ==> fits(src.kind(), #[trigger] vs@[q]@),
                dvals@.len() == firsts@.len(),
                cnts@.len() == firsts@.len(),
                forall|a: int| 0 <= a < dvals@.len() ==> fits(src.kind(), #[trigger] dvals@[a]@),
                forall|a: int|
                    0 <= a < firsts@.len() ==> #[trigger] firsts@[a] < i && cells[firsts@[a] as int] == dvals@[a]@,
                forall|a: int, q: int|
                    #![trigger cells[q], dvals@[a]]
                    0 <= a < firsts@.len() && 0 <= q < firsts@[a] ==> cells[q] != dvals@[a]@,
                forall|a: int, b: int| 0 <= a < b < firsts@.len() ==> firsts@[a] < firsts@[b],
                forall|a: int, b: int| 0 <= a < b < dvals@.len() ==> dvals@[a]@ != dvals@[b]@,
                forall|q: int|
                    #![trigger cells[q]]
                    0 <= q < i ==> exists|a: int| 0 <= a < dvals@.len() && (#[trigger] dvals@[a])@ == cells[q],
                forall|a: int| 0 <= a < cnts@.len() ==> #[trigger] cnts@[a] == occurrences(cells.take(i as int), dvals@[a]@),
            decreases n - i,
        {
            let ghost v = cells[i as int];
            assert(vs@[i as int]@ == v);
            let mut a: usize = 0;
            while a < dvals.len() && !same_value(&dvals[a], &vs[i])
                invariant
                    a <= dvals@.len(),
                    i < n,
                    n == vs@.len(),
                    cells == value_views(vs@),
                    v == vs@[i as int]@,
                    forall|b: int| 0 <= b < a ==> (#[trigger] dvals@[b])@ != v,
                decreases dvals.len() - a,
            {
                a = a + 1;
            }
            let ghost d0 = dvals@;
            let ghost before_cnts = cnts@;
            proof {
                assert forall|b: int| 0 <= b < dvals@.len() implies occurrences(cells.take(i + 1), (#[trigger] dvals@[b])@)
                    == occurrences(cells.take(i as int), dvals@[b]@) + if dvals@[b]@ == v {
                    1nat
                } else {
                    0nat
                } by {
                    lemma_occurrences_step(cells, i as int, dvals@[b]@);
                }
            }
            if a < dvals.len() {
                assert(dvals@[a as int]@ == v);
                proof {
                    lemma_occurrences_step(cells, i as int, v);
                }
                let c = cnts[a];
                cnts.set(a, c + 1);
                assert forall|b: int| 0 <= b < cnts@.len() implies #[trigger] cnts@[b] == occurrences(
                    cells.take(i + 1),
                    dvals@[b]@,
                ) by {
                    if b != a {
                        assert(dvals@[b]@ != v) by {
                            if b < a {
                                assert(dvals@[a as int]@ != dvals@[b]@);
                            } else {
                                assert(dvals@[a as int]@ != dvals@[b]@);
                            }
                        }
                    }
                }
            } else {
                let ghost before_d = dvals@;
                dvals.push(copy_value(&vs[i]));
                firsts.push(i);
                cnts.push(1);
                proof {
                    lemma_occurrences_step(cells, i as int, v);
                    assert(occurrences(cells.take(i as int), v) == 0) by {
                        lemma_no_occurrence(cells, i as int, v);
                    }
                    assert forall|b: int| 0 <= b < cnts@.len() implies #[trigger] cnts@[b] == occurrences(
                        cells.take(i + 1),
                        dvals@[b]@,
                    ) by {
                        if b < before_d.len() {
                            assert(dvals@[b] == before_d[b]);
                        }
                    }
                    assert forall|a2: int, q: int|
                        #![trigger cells[q], dvals@[a2]]
                        0 <= a2 < firsts@.len() && 0 <= q < firsts@[a2] implies cells[q] != dvals@[a2]@ by {
                        if a2 == before_d.len() {
                            if cells[q] == v {
                                let w = choose|w: int| 0 <= w < before_d.len() && (#[trigger] before_d[w])@ == cells[q];
                                assert(dvals@[w]@ == v);
                            }
                        } else {
                            assert(dvals@[a2] == before_d[a2]);
                        }
                    }
                }
            }
            proof {
                assert forall|q: int|
                    #![trigger cells[q]]
                    0 <= q < i + 1 implies exists|a2: int| 0 <= a2 < dvals@.len() && (#[trigger] dvals@[a2])@ == cells[q] by {
                    if q < i {
                        let w = choose|w: int| 0 <= w < d0.len() && (#[trigger] d0[w])@ == cells[q];
                        assert(dvals@[w] == d0[w]);
                    } else if a < d0.len() {
                        assert(dvals@[a as int]@ == cells[q]);
                    } else {
                        assert(dvals@[d0.len() as int]@ == cells[q]);
                    }
                }
            }
            i = i + 1;
        }
        assert(cells.take(n as int) =~= cells);
        let k = dvals.len();
        // Order the distinct values: more frequent first, then by first occurrence.
        let mut idx: Vec<usize> = Vec::new();
        let mut b: usize = 0;
        while b < k
            invariant
                b <= k,
                k == cnts@.len(),
                idx@.len() == b,
                forall|x: int| 0 <= x < idx@.len() ==> #[trigger] idx@[x] < b,
                forall|x: int, y: int| 0 <= x < y < idx@.len() ==> ranks_before(cnts@, idx@[x] as int, idx@[y] as int),
                forall|c: usize| c < b ==> #[trigger] idx@.contains(c),
            decreases k - b,
        {
            let mut p: usize = 0;
            while p < idx.len() && cnts[idx[p]] >= cnts[b]
                invariant
                    p <= idx@.len(),
                    b < k,
                    k == cnts@.len(),
                    forall|x: int| 0 <= x < idx@.len() ==> #[trigger] idx@[x] < b,
                    forall|x: int| 0 <= x < p ==> cnts@[#[trigger] idx@[x] as int] >= cnts@[b as int],
                decreases idx.len() - p,
            {
                p = p + 1;
            }
            let ghost before = idx@;
            idx.insert(p, b);
            proof {
                assert forall|x: int, y: int| 0 <= x < y < idx@.len() implies ranks_before(
                    cnts@,
                    idx@[x] as int,
                    idx@[y] as int,
                ) by {
                    if y < p {
                        assert(idx@[x] == before[x] && idx@[y] == before[y]);
                    } else if y == p {
                        assert(idx@[x] == before[x]);
                    } else if x == p {
                        assert(idx@[y] == before[y - 1]);
                        assert(cnts@[before[p as int] as int] < cnts@[b as int]);
                        if y - 1 > p {
                            assert(ranks_before(cnts@, before[p as int] as int, before[y - 1] as int));
                        }
                    } else if x < p {
                        assert(idx@[x] == before[x] && idx@[y] == before[y - 1]);
                    } else {
                        assert(idx@[x] == before[x - 1] && idx@[y] == before[y - 1]);
                    }
                }
                assert forall|c: usize| c < b + 1 implies #[trigger] idx@.contains(c) by {
                    if c == b {
                        assert(idx@[p as int] == b);
                    } else {
                        assert(before.contains(c));
                        let x = choose|x: int| 0 <= x < before.len() && before[x] == c;
                        if x < p {
                            assert(idx@[x] == before[x]);
                        } else {
                            assert(idx@[x + 1] == before[x]);
                        }
                    }
                }
                assert forall|x: int| 0 <= x < idx@.len() implies #[trigger] idx@[x] < b + 1 by {
                    if x < p {
                        assert(idx@[x] == before[x]);
                    } else if x > p {
                        assert(idx@[x] == before[x - 1]);
                    }
                }
            }
            b = b + 1;
        }
        let ghost dv = value_views(dvals@);
        proof {
            assert forall|q: int|
                #![trigger cells[q]]
                0 <= q < cells.len() implies exists|a: int| #![trigger dv[a]] 0 <= a < dv.len() && dv[a] == cells[q] by {
                let a = choose|a: int| 0 <= a < dvals@.len() && (#[trigger] dvals@[a])@ == cells[q];
                assert(dv[a] == dvals@[a]@);
            }
            assert forall|a: int| 0 <= a < k implies occurrences(cells, #[trigger] dv[a]) <= n by {
                lemma_occurrences_bound(cells, dv[a]);
            }
        }
        let mut out_vals: Vec<Value> = Vec::new();
        let mut out_counts: Vec<i64> = Vec::new();
        let mut x: usize = 0;
        while x < k
            invariant
                x <= k,
                k == idx@.len(),
                k == dvals@.len(),
                k == cnts@.len(),
                n <= i64::MAX,
                dv == value_views(dvals@),
                forall|y: int| 0 <= y < idx@.len() ==> #[trigger] idx@[y] < k,
                forall|a: int| 0 <= a < cnts@.len() ==> #[trigger] cnts@[a] == occurrences(cells, dvals@[a]@),
                forall|a: int| 0 <= a < k ==> occurrences(cells, #[trigger] dv[a]) <= n,
                forall|a: int| 0 <= a < dvals@.len() ==> fits(src.kind(), #[trigger] dvals@[a]@),
                out_vals@.len() == x,
                out_counts@.len() == x,
                forall|y: int| 0 <= y < x ==> (#[trigger] out_vals@[y])@ == dv[idx@[y] as int],
                forall|y: int| 0 <= y < x ==> fits(src.kind(), (#[trigger] out_vals@[y])@),
                forall|y: int| 0 <= y < x ==> #[trigger] out_counts@[y] == cnts@[idx@[y] as int] as i64,
            decreases k - x,
        {
            let a = idx[x];
            assert(dv[a as int] == dvals@[a as int]@);
            out_vals.push(copy_value(&dvals[a]));
            out_counts.push(cnts[a] as i64);
            x = x + 1;
        }
        let ghost vals = value_views(out_vals@);
        proof {
            assert forall|y: int| 0 <= y < vals.len() implies fits(src.kind(), #[trigger] vals[y]) by {
                assert(vals[y] == out_vals@[y]@);
            }
            lemma_fitting_values(src.kind(), vals);
        }
        let value_series = match Series::from_values(column, out_vals.as_slice()) {
            Ok(s) => s,
            Err(_) => vstd::pervasive::unreached(),
        };
        let count_series = Series::from_ints("count", out_counts);
        let ghost counts = count_series.cells();
        proof {
            assert forall|a: int| 0 <= a < cnts@.len() implies #[trigger] cnts@[a] <= i64::MAX by {
                assert(occurrences(cells, dv[a]) <= n);
            }
            lemma_counted(cells, dv, firsts@, cnts@, idx@, vals, counts);
        }
        let mut out: Vec<Series> = Vec::new();
        out.push(value_series);
        out.push(count_series);
        Ok(DataFrame::make(out, k))
    }
}

/// The values of a column are as often as it is long, at most.
proof fn lemma_occurrences_bound(vals: Seq<ValueModel>, v: ValueModel)
    ensures
        occurrences(vals, v) <= vals.len(),
    decreases vals.len(),
{
    if vals.len() > 0 {
        lemma_occurrences_bound(vals.drop_last(), v);
    }
}

/// The distinct values of a column, with their first places and counts,
/// put in ranking order, count the column.
proof fn lemma_counted(
    cells: Seq<ValueModel>,
    dv: Seq<ValueModel>,
    firsts: Seq<usize>,
    cnts: Seq<usize>,
    idx: Seq<usize>,
    vals: Seq<ValueModel>,
    counts: Seq<ValueModel>,
)
    requires
        dv.len() <= usize::MAX,
        firsts.len() == dv.len(),
        cnts.len() == dv.len(),
        idx.len() == dv.len(),
        vals.len() == dv.len(),
        counts.len() == dv.len(),
        forall|a: int| 0 <= a < firsts.len() ==> #[trigger] firsts[a] < cells.len() && cells[firsts[a] as int] == dv[a],
        forall|a: int, q: int|
            #![trigger cells[q], dv[a]]
            0 <= a < firsts.len() && 0 <= q < firsts[a] ==> cells[q] != dv[a],
        forall|a: int, b: int| 0 <= a < b < firsts.len() ==> firsts[a] < firsts[b],
        forall|a: int, b: int| 0 <= a < b < dv.len() ==> dv[a] != dv[b],
        forall|q: int|
            #![trigger cells[q]]
            0 <= q < cells.len() ==> exists|a: int| #![trigger dv[a]] 0 <= a < dv.len() && dv[a] == cells[q],
        forall|a: int| 0 <= a < cnts.len() ==> #[trigger] cnts[a] == occurrences(cells, dv[a]),
        forall|a: int| 0 <= a < cnts.len() ==> #[trigger] cnts[a] <= i64::MAX,
        forall|x: int| 0 <= x < idx.len() ==> #[trigger] idx[x] < dv.len(),
        forall|x: int, y: int| 0 <= x < y < idx.len() ==> ranks_before(cnts, idx[x] as int, idx[y] as int),
        forall|c: usize| (c as int) < dv.len() ==> #[trigger] idx.contains(c),
        forall|y: int| 0 <= y < vals.len() ==> #[trigger] vals[y] == dv[idx[y] as int],
        forall|y: int| 0 <= y < counts.len() ==> #[trigger] counts[y] == ValueModel::Int(cnts[idx[y] as int] as i64),
    ensures
        counted(cells, vals, counts),
{
    assert forall|a: int| 0 <= a < dv.len() implies first_row(cells, #[trigger] dv[a]) == firsts[a] by {
        lemma_first_row_is(cells, dv[a], firsts[a] as int);
    }
    assert forall|i: int| 0 <= i < cells.len() implies vals.contains(#[trigger] cells[i]) by {
        let a = choose|a: int| 0 <= a < dv.len() && #[trigger] dv[a] == cells[i];
        assert(idx.contains(a as usize));
        let x = choose|x: int| 0 <= x < idx.len() && idx[x] == a as usize;
        assert(vals[x] == cells[i]);
    }
    assert forall|j: int| 0 <= j < vals.len() implies cells.contains(#[trigger] vals[j]) by {
        let a = idx[j] as int;
        assert(cells[firsts[a] as int] == vals[j]);
    }
    assert forall|j: int, k: int| 0 <= j < k < vals.len() implies vals[j] != vals[k] by {
        let a = idx[j] as int;
        let b = idx[k] as int;
        assert(ranks_before(cnts, a, b));
        if a < b {
            assert(dv[a] != dv[b]);
        } else if b < a {
            assert(dv[b] != dv[a]);
        }
    }
    assert forall|j: int| 0 <= j < vals.len() implies #[trigger] counts[j] == ValueModel::Int(
        occurrences(cells, vals[j]) as i64,
    ) by {
        let a = idx[j] as int;
        assert(cnts[a] == occurrences(cells, dv[a]));
    }
    assert forall|j: int, k: int|
        #![trigger vals[j], vals[k]]
        0 <= j < k < vals.len() implies occurrences(cells, vals[j]) > occurrences(cells, vals[k]) || (occurrences(
        cells,
        vals[j],
    ) == occurrences(cells, vals[k]) && first_row(cells, vals[j]) < first_row(cells, vals[k])) by {
        let a = idx[j] as int;
        let b = idx[k] as int;
        assert(ranks_before(cnts, a, b));
        assert(cnts[a] == occurrences(cells, dv[a]));
        assert(cnts[b] == occurrences(cells, dv[b]));
        assert(first_row(cells, dv[a]) == firsts[a]);
        assert(first_row(cells, dv[b]) == firsts[b]);
    }
}

/// A value not among the values before row `i` occurs there no time.
proof fn lemma_no_occurrence(vals: Seq<ValueModel>, i: int, v: ValueModel)
    requires
        0 <= i <= vals.len(),
        forall|q: int| 0 <= q < i ==> vals[q] != v,
    ensures
        occurrences(vals.take(i), v) == 0,
    decreases i,
{
    if i > 0 {
        assert(vals.take(i).drop_last() =~= vals.take(i - 1));
        lemma_no_occurrence(vals, i - 1, v);
    }
}


/// The first table after the first whose column names differ from the
/// first's, or -1.
pub open spec fn first_mismatch(dfs: Seq<&DataFrame>) -> int
    decreases dfs.len(),
{
    if dfs.len() <= 1 {
        -1
    } else if first_mismatch(dfs.drop_last()) >= 0 {
        first_mismatch(dfs.drop_last())
    } else if names_of(dfs.last().series()) != names_of(dfs[0].series()) {
        dfs.len() - 1
    } else {
        -1
    }
}

/// The message for a table whose column names differ from the first's.
pub open spec fn mismatch_message(i: nat, expected: Seq<Seq<char>>, got: Seq<Seq<char>>) -> Seq<char> {
    "DataFrame at index "@ + dec(i) + " has different columns: expected "@ + debug_list(expected) + ", got "@
        + debug_list(got)
}

/// The values of the column `name` of the first `d` tables, one after
/// another.
pub open spec fn joined(dfs: Seq<&DataFrame>, name: Seq<char>, d: nat) -> Seq<ValueModel>
    decreases d,
{
    if d == 0 {
        Seq::empty()
    } else {
        joined(dfs, name, (d - 1) as nat) + named(dfs[d - 1].series(), name).cells()
    }
}

/// The content of tables with the same column names put one under another.
pub open spec fn concatenated(dfs: Seq<&DataFrame>) -> Seq<(Seq<char>, Seq<ValueModel>)> {
    let names = names_of(dfs[0].series());
    Seq::new(names.len(), |k: int| (names[k], joined(dfs, names[k], dfs.len())))
}

/// `r` is what concatenating `dfs` gives: `EmptyData` for no tables, a copy
/// of a lone table, `SchemaMismatch` for a table whose column names differ
/// from the first's, else the tables put one under another (as
/// [`concatenated`] describes the content), the columns built as
/// [`framed`] says.
pub open spec fn concat_outcome(dfs: Seq<&DataFrame>, r: Result<DataFrame, DataError>) -> bool {
    let m = first_mismatch(dfs);
    if dfs.len() == 0 {
        r matches Err(DataError::EmptyData)
    } else if dfs.len() == 1 {
        r matches Ok(df) && same_columns(df.series(), dfs[0].series()) && df.height() == dfs[0].height()
    } else if m >= 0 {
        r matches Err(DataError::SchemaMismatch(e)) && e@ == mismatch_message(
            m as nat,
            names_of(dfs[0].series()),
            names_of(dfs[m].series()),
        )
    } else {
        framed(concatenated(dfs), r)
    }
}

/// A mismatch found among the first `k` tables is the first of all.
proof fn lemma_mismatch_prefix(dfs: Seq<&DataFrame>, k: int)
    requires
        1 <= k <= dfs.len(),
        first_mismatch(dfs.take(k)) >= 0,
    ensures
        first_mismatch(dfs) == first_mismatch(dfs.take(k)),
    decreases dfs.len() - k,
{
    if k < dfs.len() {
        assert(dfs.take(k + 1).drop_last() =~= dfs.take(k));
        assert(dfs.take(k + 1)[0] == dfs[0]);
        lemma_mismatch_prefix(dfs, k + 1);
    } else {
        assert(dfs.take(k) =~= dfs);
    }
}

/// Whether two tables have the same column names, in order.
fn same_names(a: &DataFrame, b: &DataFrame) -> (r: bool)
    ensures
        r == (names_of(a.series()) == names_of(b.series())),
{
    let ac = a.series_ref();
    let bc = b.series_ref();
    if ac.len() != bc.len() {
        assert(names_of(a.series()).len() != names_of(b.series()).len());
        return false;
    }
    let mut k: usize = 0;
    while k < ac.len()
        invariant
            k <= ac@.len(),
            ac@.len() == bc@.len(),
            ac@ == a.series(),
            bc@ == b.series(),
            forall|c: int| 0 <= c < k ==> (#[trigger] ac@[c]).name_view() == bc@[c].name_view(),
        decreases ac.len() - k,
    {
        if !str_eq(ac[k].name(), bc[k].name()) {
            assert(names_of(a.series())[k as int] != names_of(b.series())[k as int]);
            return false;
        }
        k = k + 1;
    }
    assert(names_of(a.series()) =~= names_of(b.series()));
    true
}

/// The names of the columns, owned.
fn owned_column_names(df: &DataFrame) -> (r: Vec<String>)
    ensures
        r@.map_values(|s: String| s@) == names_of(df.series()),
{
    let names = df.columns();
    names
}

impl DataFrame {
    /// The tables put one under another: see [`concat_outcome`].
    pub fn concat(dataframes: &[&DataFrame]) -> (r: Result<Self, DataError>)
        ensures
            concat_outcome(dataframes@, r),
    {
        let ghost dfs = dataframes@;
        if dataframes.len() == 0 {
            return Err(DataError::EmptyData);
        }
        if dataframes.len() == 1 {
            return Ok(dataframes[0].clone());
        }
        let first = dataframes[0];
        let mut i: usize = 1;
        while i < dataframes.len()
            invariant
                1 <= i <= dfs.len(),
                dfs == dataframes@,
                first == dfs[0],
                first_mismatch(dfs.take(i as int)) < 0,
            decreases dataframes.len() - i,
        {
            assert(dfs.take(i + 1).drop_last() =~= dfs.take(i as int));
            assert(dfs.take(i + 1)[0] == dfs[0]);
            assert(dfs.take(i + 1).last() == dfs[i as int]);
            if !same_names(dataframes[i], first) {
                proof {
                    lemma_mismatch_prefix(dfs, (i + 1) as int);
                }
                let mut m = copy_str("DataFrame at index ");
                push_dec(&mut m, i as u128);
                m.append(" has different columns: expected ");
                let expected = owned_column_names(first);
                m.append(debug_strings(&expected).as_str());
                m.append(", got ");
                let got = owned_column_names(dataframes[i]);
                m.append(debug_strings(&got).as_str());
                assert(m@ =~= mismatch_message(i as nat, names_of(dfs[0].series()), names_of(dfs[i as int].series())));
                return Err(DataError::SchemaMismatch(m));
            }
            i = i + 1;
        }
        assert(dfs.take(dfs.len() as int) =~= dfs);
        let cols0 = first.series_ref();
        let ghost tv = concatenated(dfs);
        let mut t: Vec<(String, Vec<Value>)> = Vec::new();
        let mut k: usize = 0;
        while k < cols0.len()
            invariant
                k <= cols0@.len(),
                dfs == dataframes@,
                dfs.len() >= 2,
                cols0@ == dfs[0].series(),
                tv == concatenated(dfs),
                tv.len() == cols0@.len(),
                first_mismatch(dfs) < 0,
                t@.len() == k,
                forall|c: int| 0 <= c < k ==> #[trigger] table_view(t@)[c] == tv[c],
            decreases cols0.len() - k,
        {
            let name = cols0[k].name();
            let ghost nm = name@;
            assert(names_of(dfs[0].series())[k as int] == nm);
            let mut vals: Vec<Value> = Vec::new();
            let mut d: usize = 0;
            while d < dataframes.len()
                invariant
                    d <= dfs.len(),
                    dfs == dataframes@,
                    dfs.len() >= 2,
                    first_mismatch(dfs) < 0,
                    nm == name@,
                    names_of(dfs[0].series()).contains(nm),
                    value_views(vals@) == joined(dfs, nm, d as nat),
                decreases dataframes.len() - d,
            {
                let cols = dataframes[d].series_ref();
                proof {
                    lemma_no_mismatch(dfs, d as int);
                    let q = choose|q: int| 0 <= q < names_of(dfs[0].series()).len() && names_of(dfs[0].series())[q] == nm;
                    assert(names_of(cols@)[q] == nm);
                    assert(cols@[q].name_view() == nm);
                    lemma_first_named(cols@, nm);
                }
                let j = match find_series(cols, name) {
                    Some(j) => j,
                    None => vstd::pervasive::unreached(),
                };
                let src = cols[j].values_ref();
                let ghost before = vals@;
                let mut q: usize = 0;
                while q < src.len()
                    invariant
                        q <= src@.len(),
                        value_views(vals@) == value_views(before) + value_views(src@).take(q as int),
                    decreases src.len() - q,
                {
                    let ghost vb = vals@;
                    vals.push(copy_value(&src[q]));
                    assert(value_views(vals@) =~= value_views(vb).push(src@[q as int]@));
                    assert(value_views(src@).take(q + 1) =~= value_views(src@).take(q as int).push(src@[q as int]@));
                    assert(value_views(vals@) =~= value_views(before) + value_views(src@).take(q + 1));
                    q = q + 1;
                }
                assert(value_views(src@).take(src@.len() as int) =~= value_views(src@));
                d = d + 1;
            }
            let ghost tb = t@;
            t.push((copy_str(name), vals));
            proof {
                assert(names_of(dfs[0].series()).contains(nm)) by {
                    assert(names_of(dfs[0].series())[k as int] == nm);
                }
                assert forall|c: int| 0 <= c < t@.len() implies #[trigger] table_view(t@)[c] == tv[c] by {
                    if c < k {
                        assert(table_view(t@)[c] == table_view(tb)[c]);
                    }
                }
            }
            k = k + 1;
        }
        assert(table_view(t@) =~= tv);
        frame_from_table(t)
    }

    /// The rows of `other` put under this table's: the concatenation of the
    /// two (see [`concat_outcome`]).
    pub fn append(&self, other: &DataFrame) -> (r: Result<Self, DataError>)
        ensures
            concat_outcome(seq![self, other], r),
    {
        let mut both: Vec<&DataFrame> = Vec::new();
        both.push(self);
        both.push(other);
        assert(both@ =~= seq![self, other]);
        DataFrame::concat(both.as_slice())
    }
}

/// Without a mismatch every table has the first's column names.
proof fn lemma_no_mismatch(dfs: Seq<&DataFrame>, d: int)
    requires
        0 <= d < dfs.len(),
        first_mismatch(dfs) < 0,
    ensures
        names_of(dfs[d].series()) == names_of(dfs[0].series()),
    decreases dfs.len(),
{
    if d > 0 && dfs.len() > 1 {
        if d < dfs.len() - 1 {
            assert(dfs.drop_last()[0] == dfs[0]);
            assert(dfs.drop_last()[d] == dfs[d]);
            lemma_no_mismatch(dfs.drop_last(), d);
        }
    }
}

} // verus!
