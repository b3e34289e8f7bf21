//! Joining two tables on a key column of each.

use vstd::prelude::*;

use super::dataframe::{find_series, first_named, lemma_first_named, names_of, rect, DataFrame};
use super::error::DataError;
use super::frame_ops::{frame_from_table, framed, named};
use super::join::{join_rows, join_rows_spec, lemma_join_rows_exact, pair_ok, JoinSpec, RowPair};
use super::merge::table_view;
use super::series::Series;
use super::value::{copy_value, value_views, Value, ValueModel};
use crate::text::{copy_str, str_eq};

verus! {

/// The value a left column gives a joined row: its value at the left row;
/// where there is none, the right key for the join column when both join
/// columns have one name, else null.
pub open spec fn left_cell(col: Series, is_key: bool, rk: Seq<ValueModel>, p: RowPair) -> ValueModel {
    match p.0 {
        Some(i) => col.cells()[i as int],
        None => if is_key {
            match p.1 {
                Some(j) => rk[j as int],
                None => ValueModel::Null,
            }
        } else {
            ValueModel::Null
        },
    }
}

/// The value a right column gives a joined row: its value at the right
/// row, or null.
pub open spec fn right_cell(col: Series, p: RowPair) -> ValueModel {
    match p.1 {
        Some(j) => col.cells()[j as int],
        None => ValueModel::Null,
    }
}

/// The left columns of a join, in order.
pub open spec fn join_left_columns(
    left: Seq<Series>,
    lc: Seq<char>,
    same: bool,
    rk: Seq<ValueModel>,
    pairs: Seq<RowPair>,
) -> Seq<(Seq<char>, Seq<ValueModel>)> {
    Seq::new(
        left.len(),
        |k: int|
            (left[k].name_view(), Seq::new(pairs.len(), |p: int| left_cell(left[k], same && left[k].name_view() == lc, rk, pairs[p]))),
    )
}

/// The right columns of a join, in order, but for the right join column
/// when both join columns have one name; a name the left table has takes
/// `_right`.
pub open spec fn join_right_columns(
    left: Seq<Series>,
    right: Seq<Series>,
    rc: Seq<char>,
    same: bool,
    pairs: Seq<RowPair>,
) -> Seq<(Seq<char>, Seq<ValueModel>)>
    decreases right.len(),
{
    if right.len() == 0 {
        Seq::empty()
    } else {
        let prev = join_right_columns(left, right.drop_last(), rc, same, pairs);
        let c = right.last();
        let n = c.name_view();
        if same && n == rc {
            prev
        } else {
            prev.push(
                (if names_of(left).contains(n) {
                    n + "_right"@
                } else {
                    n
                }, Seq::new(pairs.len(), |p: int| right_cell(c, pairs[p]))),
            )
        }
    }
}

/// The content of a join of two tables by `spec`: the rows
/// [`join_rows_spec`] pairs, the left columns then the right ones.
pub open spec fn joined_content(left: Seq<Series>, right: Seq<Series>, spec: JoinSpec) -> Seq<(Seq<char>, Seq<ValueModel>)> {
    let lc = spec.left_column@;
    let rc = spec.right_column@;
    let same = lc == rc;
    let rk = named(right, rc).cells();
    let pairs = join_rows_spec(spec.join_type, named(left, lc).cells(), rk);
    join_left_columns(left, lc, same, rk, pairs) + join_right_columns(left, right, rc, same, pairs)
}

/// The pair's left row, if any, is below `n`.
pub open spec fn left_in(p: RowPair, n: nat) -> bool {
    match p.0 {
        Some(i) => i < n,
        None => true,
    }
}

/// The pair's right row, if any, is below `n`.
pub open spec fn right_in(p: RowPair, n: nat) -> bool {
    match p.1 {
        Some(j) => j < n,
        None => true,
    }
}

/// The values of the rows of `col` the pairs pick on one side, null where
/// a pair has no row of that side.
fn side_cells(col: &Vec<Value>, pairs: &Vec<RowPair>, left: bool, key: Option<&Vec<Value>>) -> (r: Vec<Value>)
    requires
        forall|p: int|
            0 <= p < pairs@.len() ==> (left ==> left_in(#[trigger] pairs@[p], col@.len())) && (!left ==> right_in(
                pairs@[p],
                col@.len(),
            )),
        key matches Some(kv) ==> left && forall|p: int| 0 <= p < pairs@.len() ==> right_in(#[trigger] pairs@[p], kv@.len()),
    ensures
        r@.len() == pairs@.len(),
        forall|p: int|
            0 <= p < r@.len() ==> (#[trigger] r@[p])@ == if left {
                match pairs@[p].0 {
                    Some(i) => col@[i as int]@,
                    None => match key {
                        Some(kv) => match pairs@[p].1 {
                            Some(j) => kv@[j as int]@,
                            None => ValueModel::Null,
                        },
                        None => ValueModel::Null,
                    },
                }
            } else {
                match pairs@[p].1 {
                    Some(j) => col@[j as int]@,
                    None => ValueModel::Null,
                }
            },
{
    let mut out: Vec<Value> = Vec::new();
    let mut p: usize = 0;
    while p < pairs.len()
        invariant
            p <= pairs@.len(),
            out@.len() == p,
            forall|q: int|
                0 <= q < pairs@.len() ==> (left ==> left_in(#[trigger] pairs@[q], col@.len())) && (!left ==> right_in(
                    pairs@[q],
                    col@.len(),
                )),
            key matches Some(kv) ==> left && forall|q: int| 0 <= q < pairs@.len() ==> right_in(#[trigger] pairs@[q], kv@.len()),
            forall|q: int|
                0 <= q < p ==> (#[trigger] out@[q])@ == if left {
                    match pairs@[q].0 {
                        Some(i) => col@[i as int]@,
                        None => match key {
                            Some(kv) => match pairs@[q].1 {
                                Some(j) => kv@[j as int]@,
                                None => ValueModel::Null,
                            },
                            None => ValueModel::Null,
                        },
                    }
                } else {
                    match pairs@[q].1 {
                        Some(j) => col@[j as int]@,
                        None => ValueModel::Null,
                    }
                },
        decreases pairs.len() - p,
    {
        let pair = pairs[p];
        let v = if left {
            match pair.0 {
                Some(i) => copy_value(&col[i]),
                None => match key {
                    Some(kv) => match pair.1 {
                        Some(j) => copy_value(&kv[j]),
                        None => Value::Null,
                    },
                    None => Value::Null,
                },
            }
        } else {
            match pair.1 {
                Some(j) => copy_value(&col[j]),
                None => Value::Null,
            }
        };
        out.push(v);
        p = p + 1;
    }
    out
}

impl DataFrame {
    /// This table joined with `other` on `spec`'s key columns: the rows
    /// [`join_rows_spec`] pairs by key, the left columns then the right
    /// ones, as [`joined_content`] describes the content; the columns are
    /// built as [`framed`] says. A missing key column fails with
    /// `ColumnNotFound`, the left one first.
    pub fn join(&self, other: &DataFrame, spec: &JoinSpec) -> (r: Result<DataFrame, DataError>)
        ensures
            first_named(self.series(), spec.left_column@) < 0 ==> (r matches Err(DataError::ColumnNotFound(c)) && c@
                == spec.left_column@),
            first_named(self.series(), spec.left_column@) >= 0 && first_named(other.series(), spec.right_column@) < 0
                ==> (r matches Err(DataError::ColumnNotFound(c)) && c@ == spec.right_column@),
            first_named(self.series(), spec.left_column@) >= 0 && first_named(other.series(), spec.right_column@) >= 0
                ==> framed(joined_content(self.series(), other.series(), *spec), r),
    {
        let lcols = self.series_ref();
        let rcols = other.series_ref();
        let lname = spec.left_column.as_str();
        let rname = spec.right_column.as_str();
        let li = match find_series(lcols, lname) {
            Some(i) => i,
            None => return Err(DataError::ColumnNotFound(copy_str(lname))),
        };
        let ri = match find_series(rcols, rname) {
            Some(i) => i,
            None => return Err(DataError::ColumnNotFound(copy_str(rname))),
        };
        let lk = lcols[li].values_ref();
        let rk = rcols[ri].values_ref();
        let ghost lkv = named(self.series(), lname@).cells();
        let ghost rkv = named(other.series(), rname@).cells();
        assert(value_views(lk@) == lkv);
        assert(value_views(rk@) == rkv);
        let ln = lk.len();
        let rn = rk.len();
        assert(lkv.len() == ln);
        assert(rkv.len() == rn);
        let pairs = join_rows(spec.join_type, lk, rk);
        proof {
            lemma_join_rows_exact(spec.join_type, lkv, rkv);
        }
        let same = str_eq(lname, rname);
        let ghost tv = joined_content(self.series(), other.series(), *spec);
        let ghost lpart = join_left_columns(self.series(), lname@, same, rkv, pairs@);
        let ghost rpart = join_right_columns(self.series(), other.series(), rname@, same, pairs@);
        assert(tv == lpart + rpart);
        let mut t: Vec<(String, Vec<Value>)> = Vec::new();
        let mut k: usize = 0;
        while k < lcols.len()
            invariant
                k <= lcols@.len(),
                lcols@ == self.series(),
                rect(lcols@, self.height()),
                lkv.len() == self.height(),
                rk@.len() == rkv.len(),
                value_views(rk@) == rkv,
                pairs@ == join_rows_spec(spec.join_type, lkv, rkv),
                forall|q: int| 0 <= q < pairs@.len() ==> pair_ok(spec.join_type, lkv, rkv, #[trigger] pairs@[q]),
                lpart == join_left_columns(self.series(), lname@, same, rkv, pairs@),
                t@.len() == k,
                forall|c: int| 0 <= c < k ==> #[trigger] table_view(t@)[c] == lpart[c],
            decreases lcols.len() - k,
        {
            let col = lcols[k].values_ref();
            let is_key = same && str_eq(lcols[k].name(), lname);
            let key = if is_key {
                Some(rk)
            } else {
                None
            };
            proof {
                assert forall|q: int| 0 <= q < pairs@.len() implies left_in(#[trigger] pairs@[q], col@.len()) && right_in(
                    pairs@[q],
                    rk@.len(),
                ) by {
                    assert(pair_ok(spec.join_type, lkv, rkv, pairs@[q]));
                }
            }
            let vals = side_cells(col, &pairs, true, key);
            let ghost before = t@;
            t.push((lcols[k].name_string(), vals));
            proof {
                let want = lpart[k as int];
                assert forall|p: int| 0 <= p < pairs@.len() implies #[trigger] value_views(vals@)[p] == want.1[p] by {
                    assert(value_views(vals@)[p] == vals@[p]@);
                    assert(pair_ok(spec.join_type, lkv, rkv, pairs@[p]));
                    match pairs@[p].0 {
                        Some(i) => {
                            assert(value_views(col@)[i as int] == col@[i as int]@);
                        },
                        None => {
                            match pairs@[p].1 {
                                Some(j) => {
                                    assert(value_views(rk@)[j as int] == rk@[j as int]@);
                                },
                                None => {},
                            }
                        },
                    }
                }
                assert(value_views(vals@) =~= want.1);
                assert forall|c: int| 0 <= c < t@.len() implies #[trigger] table_view(t@)[c] == lpart[c] by {
                    if c < k {
                        assert(table_view(t@)[c] == table_view(before)[c]);
                    }
                }
            }
            k = k + 1;
        }
        let nl = lcols.len();
        let mut k: usize = 0;
        while k < rcols.len()
            invariant
                k <= rcols@.len(),
                nl == lcols@.len(),
                lcols@ == self.series(),
                rcols@ == other.series(),
                rect(rcols@, other.height()),
                rkv.len() == other.height(),
                pairs@ == join_rows_spec(spec.join_type, lkv, rkv),
                forall|q: int| 0 <= q < pairs@.len() ==> pair_ok(spec.join_type, lkv, rkv, #[trigger] pairs@[q]),
                lpart.len() == nl,
                t@.len() == nl + join_right_columns(self.series(), rcols@.take(k as int), rname@, same, pairs@).len(),
                forall|c: int| 0 <= c < nl ==> #[trigger] table_view(t@)[c] == lpart[c],
                forall|c: int|
                    0 <= c < join_right_columns(self.series(), rcols@.take(k as int), rname@, same, pairs@).len()
                        ==> #[trigger] table_view(t@)[nl + c] == join_right_columns(
                        self.series(),
                        rcols@.take(k as int),
                        rname@,
                        same,
                        pairs@,
                    )[c],
            decreases rcols.len() - k,
        {
            assert(rcols@.take(k + 1).drop_last() =~= rcols@.take(k as int));
            assert(rcols@.take(k + 1).last() == rcols@[k as int]);
            let name = rcols[k].name();
            let ghost prev = join_right_columns(self.series(), rcols@.take(k as int), rname@, same, pairs@);
            if !(same && str_eq(name, rname)) {
                let col = rcols[k].values_ref();
                proof {
                    assert forall|q: int| 0 <= q < pairs@.len() implies right_in(#[trigger] pairs@[q], col@.len()) by {
                        assert(pair_ok(spec.join_type, lkv, rkv, pairs@[q]));
                    }
                }
                let vals = side_cells(col, &pairs, false, None);
                proof {
                    lemma_first_named(lcols@, name@);
                    if names_of(lcols@).contains(name@) {
                        let q = choose|q: int| 0 <= q < names_of(lcols@).len() && names_of(lcols@)[q] == name@;
                        assert(lcols@[q].name_view() == name@);
                    }
                }
                let out_name = if find_series(lcols, name).is_some() {
                    assert(names_of(lcols@)[first_named(lcols@, name@)] == name@);
                    let mut m = copy_str(name);
                    m.append("_right");
                    m
                } else {
                    copy_str(name)
                };
                let ghost before = t@;
                t.push((out_name, vals));
                proof {
                    let next = join_right_columns(self.series(), rcols@.take(k + 1), rname@, same, pairs@);
                    assert(next == prev.push((out_name@, Seq::new(pairs@.len(), |p: int| right_cell(rcols@[k as int], pairs@[p])))));
                    assert forall|p: int| 0 <= p < pairs@.len() implies #[trigger] value_views(vals@)[p] == right_cell(
                        rcols@[k as int],
                        pairs@[p],
                    ) by {
                        assert(value_views(vals@)[p] == vals@[p]@);
                        assert(pair_ok(spec.join_type, lkv, rkv, pairs@[p]));
                        match pairs@[p].1 {
                            Some(j) => {
                                assert(value_views(col@)[j as int] == col@[j as int]@);
                            },
                            None => {},
                        }
                    }
                    assert(value_views(vals@) =~= Seq::new(pairs@.len(), |p: int| right_cell(rcols@[k as int], pairs@[p])));
                    assert forall|c: int| 0 <= c < nl implies #[trigger] table_view(t@)[c] == lpart[c] by {
                        assert(table_view(t@)[c] == table_view(before)[c]);
                    }
                    assert forall|c: int| 0 <= c < next.len() implies #[trigger] table_view(t@)[nl + c] == next[c] by {
                        if c < prev.len() {
                            assert(table_view(t@)[nl + c] == table_view(before)[nl + c]);
                        }
                    }
                }
            }
            k = k + 1;
        }
        assert(rcols@.take(rcols@.len() as int) =~= rcols@);
        proof {
            assert(lpart.len() == nl);
            assert forall|c: int| 0 <= c < tv.len() implies #[trigger] table_view(t@)[c] == tv[c] by {
                if c < nl {
                    assert(tv[c] == lpart[c]);
                } else {
                    let d = c - nl;
                    assert(tv[c] == rpart[d]);
                    assert(table_view(t@)[nl + d] == rpart[d]);
                }
            }
        }
        assert(table_view(t@) =~= tv);
        frame_from_table(t)
    }
}

} // verus!
