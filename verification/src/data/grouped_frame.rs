//! A table grouped by the values of some of its columns, and the
//! aggregations computed per group.

use vstd::prelude::*;

use super::dataframe::{find_series, first_missing_name, first_named, rect, DataFrame};
use super::frame_ops::{frame_from_table, framed};
use super::frame_sort::{sorted_rows, stable_order, SortKey};
use super::merge::table_view;
use super::series::{fits, pick, SeriesType};
use super::error::DataError;
use super::frame_ops::named;
use super::grouped::{agg_op_name, group_key_view, key_value, keys_view, AggOp, AggSpec, group_pos, group_rows, groups_of, groups_view, lemma_group_pos, lemma_groups_partition, row_key, GroupKey};
use super::merge::string_views;
use super::series::{kind_name, kind_name_exec, null_total, Series};
use super::series_ops::{before, value_before};
use super::predicate::contains_value;
use super::value::copy_value;
use super::value::{value_views, Value, ValueModel};
use crate::text::copy_str;

verus! {

/// The key of row `i`: its value in each key column, in order.
pub open spec fn key_row(keys: Seq<Seq<ValueModel>>, i: int) -> Seq<ValueModel> {
    keys.map_values(|c: Seq<ValueModel>| c[i])
}

/// The groups of the first `n` rows by the key columns: one group per
/// distinct key, in the order in which the keys first occur, each with its
/// rows in order.
pub open spec fn groups_by(keys: Seq<Seq<ValueModel>>, n: nat) -> Seq<(Seq<ValueModel>, Seq<usize>)>
    decreases n,
{
    if n == 0 {
        Seq::empty()
    } else {
        let gs = groups_by(keys, (n - 1) as nat);
        let k = key_row(keys, n - 1);
        let p = group_pos(gs, k);
        if p >= 0 {
            gs.update(p, (gs[p].0, gs[p].1.push((n - 1) as usize)))
        } else {
            gs.push((k, seq![(n - 1) as usize]))
        }
    }
}

/// The values of the first column of each name.
pub open spec fn key_cells(cols: Seq<Series>, names: Seq<Seq<char>>) -> Seq<Seq<ValueModel>> {
    names.map_values(|n: Seq<char>| named(cols, n).cells())
}

/// Grouping depends on the values of the key columns alone.
proof fn lemma_groups_views(cols: Seq<Vec<Value>>, keys: Seq<Seq<ValueModel>>, n: nat)
    requires
        cols.len() == keys.len(),
        forall|c: int| 0 <= c < cols.len() ==> value_views((#[trigger] cols[c])@) == keys[c],
        forall|c: int| 0 <= c < cols.len() ==> (#[trigger] cols[c])@.len() >= n,
    ensures
        groups_of(cols, n) == groups_by(keys, n),
    decreases n,
{
    if n > 0 {
        lemma_groups_views(cols, keys, (n - 1) as nat);
        assert(row_key(cols, n - 1) =~= key_row(keys, n - 1)) by {
            assert forall|c: int| 0 <= c < cols.len() implies #[trigger] row_key(cols, n - 1)[c] == key_row(keys, n - 1)[c] by {
                assert(value_views(cols[c]@)[n - 1] == cols[c]@[n - 1]@);
            }
        }
    }
}

/// Every group has a row.
proof fn lemma_groups_nonempty(keys: Seq<Seq<ValueModel>>, n: nat)
    ensures
        forall|g: int| 0 <= g < groups_by(keys, n).len() ==> (#[trigger] groups_by(keys, n)[g]).1.len() > 0,
    decreases n,
{
    if n > 0 {
        lemma_groups_nonempty(keys, (n - 1) as nat);
        let gs = groups_by(keys, (n - 1) as nat);
        let k = key_row(keys, n - 1);
        let p = group_pos(gs, k);
        let ng = groups_by(keys, n);
        lemma_group_pos(gs, k);
        assert forall|g: int| 0 <= g < ng.len() implies (#[trigger] ng[g]).1.len() > 0 by {
            if g < gs.len() {
                assert(gs[g].1.len() > 0);
            }
        }
    }
}

/// A table grouped by the values of some of its columns.
pub struct GroupedDataFrame {
    source: DataFrame,
    group_columns: Vec<String>,
    groups: Vec<(Vec<GroupKey>, Vec<usize>)>,
}

impl GroupedDataFrame {
    /// The group columns exist, and the groups are those of the source's
    /// rows by their values.
    #[verifier::type_invariant]
    spec fn grouped_well(self) -> bool {
        &&& first_missing_name(self.source.series(), string_views(self.group_columns@)) < 0
        &&& groups_view(self.groups@) == groups_by(
            key_cells(self.source.series(), string_views(self.group_columns@)),
            self.source.height(),
        )
    }

    /// The grouped table.
    pub closed spec fn source_spec(self) -> DataFrame {
        self.source
    }

    /// The names of the group columns.
    pub closed spec fn column_names(self) -> Seq<Seq<char>> {
        string_views(self.group_columns@)
    }

    /// The groups: each key with its rows.
    pub closed spec fn group_list(self) -> Seq<(Seq<ValueModel>, Seq<usize>)> {
        groups_view(self.groups@)
    }

    /// The table grouped by the values of the named columns: one group per
    /// distinct combination, in the order in which they first occur.
    /// `ColumnNotFound` names the first group column the table lacks.
    pub fn new(source: DataFrame, group_columns: Vec<String>) -> (r: Result<Self, DataError>)
        ensures
            ({
                let names = string_views(group_columns@);
                let m = first_missing_name(source.series(), names);
                if m >= 0 {
                    r matches Err(DataError::ColumnNotFound(c)) && c@ == names[m]
                } else {
                    r matches Ok(g) && g.source_spec() == source && g.column_names() == names && g.group_list()
                        == groups_by(key_cells(source.series(), names), source.height())
                }
            }),
    {
        let cols = source.series_ref();
        let n = source.num_rows();
        let ghost names = string_views(group_columns@);
        let ghost kv = key_cells(source.series(), names);
        let mut keys: Vec<Vec<Value>> = Vec::new();
        let mut c: usize = 0;
        while c < group_columns.len()
            invariant
                c <= group_columns@.len(),
                cols@ == source.series(),
                rect(cols@, n as nat),
                n == source.height(),
                names == string_views(group_columns@),
                kv == key_cells(source.series(), names),
                first_missing_name(source.series(), names.take(c as int)) < 0,
                keys@.len() == c,
                forall|k: int| 0 <= k < c ==> value_views((#[trigger] keys@[k])@) == kv[k],
                forall|k: int| 0 <= k < c ==> (#[trigger] keys@[k])@.len() == n,
            decreases group_columns.len() - c,
        {
            assert(names.take(c + 1).drop_last() =~= names.take(c as int));
            assert(names.take(c + 1).last() == names[c as int]);
            assert(names[c as int] == group_columns@[c as int]@);
            match find_series(cols, group_columns[c].as_str()) {
                None => {
                    proof {
                        lemma_missing_prefix(source.series(), names, (c + 1) as int);
                    }
                    return Err(DataError::ColumnNotFound(group_columns[c].clone()));
                },
                Some(j) => {
                    let vals = match cols[j].to_values() {
                        Ok(v) => v,
                        Err(_) => vstd::pervasive::unreached(),
                    };
                    assert(value_views(vals@).len() == vals@.len());
                    keys.push(vals);
                },
            }
            c = c + 1;
        }
        assert(names.take(names.len() as int) =~= names);
        let groups = group_rows(&keys, n);
        proof {
            lemma_groups_views(keys@, kv, n as nat);
        }
        Ok(GroupedDataFrame { source, group_columns, groups })
    }

    /// The grouped table.
    pub fn source(&self) -> (r: &DataFrame)
        ensures
            *r == self.source_spec(),
    {
        &self.source
    }

    /// The names of the group columns.
    pub fn group_columns(&self) -> (r: &[String])
        ensures
            string_views(r@) == self.column_names(),
    {
        self.group_columns.as_slice()
    }

    /// The number of groups.
    pub fn num_groups(&self) -> (r: usize)
        ensures
            r == self.group_list().len(),
    {
        self.groups.len()
    }
}

/// A missing name found among the first `k` is the first missing.
proof fn lemma_missing_prefix(cols: Seq<Series>, names: Seq<Seq<char>>, k: int)
    requires
        0 <= k <= names.len(),
        first_missing_name(cols, names.take(k)) >= 0,
    ensures
        first_missing_name(cols, names) == first_missing_name(cols, names.take(k)),
    decreases names.len() - k,
{
    if k < names.len() {
        assert(names.take(k + 1).drop_last() =~= names.take(k));
        lemma_missing_prefix(cols, names, k + 1);
    } else {
        assert(names.take(k) =~= names);
    }
}


// ---------------------------------------------------------------------------
// Aggregating one group
// ---------------------------------------------------------------------------

/// The sum of the integers among the values, `None` when there are none;
/// or the first value that is neither an integer nor missing.
pub open spec fn sum_of(vals: Seq<ValueModel>) -> Result<Option<int>, ValueModel>
    decreases vals.len(),
{
    if vals.len() == 0 {
        Ok(None)
    } else {
        match sum_of(vals.drop_last()) {
            Err(v) => Err(v),
            Ok(s) => match vals.last() {
                ValueModel::Int(x) => Ok(
                    Some(
                        match s {
                            Some(t) => t + x,
                            None => x as int,
                        },
                    ),
                ),
                ValueModel::Null => Ok(s),
                v => Err(v),
            },
        }
    }
}

/// A running sum that fits an `i64`.
pub open spec fn sum_fits(r: Result<Option<int>, ValueModel>) -> bool {
    match r {
        Ok(Some(s)) => i64::MIN <= s <= i64::MAX,
        _ => true,
    }
}

/// Every running sum of the values fits an `i64`.
pub open spec fn sums_fit(vals: Seq<ValueModel>) -> bool {
    forall|k: int| 0 <= k <= vals.len() ==> sum_fits(#[trigger] sum_of(vals.take(k)))
}

/// Two values an extreme compares: two integers or two strings.
pub open spec fn comparable(a: ValueModel, b: ValueModel) -> bool {
    (a is Int && b is Int) || (a is Str && b is Str)
}

/// The least (or, with `greatest`, the greatest) present value, null when
/// there is none; or the first pair met that cannot be compared, the value
/// met first for the least and the value held first for the greatest.
pub open spec fn extreme_of(vals: Seq<ValueModel>, greatest: bool) -> Result<ValueModel, (ValueModel, ValueModel)>
    decreases vals.len(),
{
    if vals.len() == 0 {
        Ok(ValueModel::Null)
    } else {
        match extreme_of(vals.drop_last(), greatest) {
            Err(e) => Err(e),
            Ok(cur) => {
                let v = vals.last();
                if v is Null {
                    Ok(cur)
                } else if cur is Null {
                    Ok(v)
                } else if !comparable(v, cur) {
                    Err(
                        if greatest {
                            (cur, v)
                        } else {
                            (v, cur)
                        },
                    )
                } else if (if greatest {
                    before(cur, v)
                } else {
                    before(v, cur)
                }) {
                    Ok(v)
                } else {
                    Ok(cur)
                }
            },
        }
    }
}

/// The distinct present values, in the order they first occur.
pub open spec fn distinct_present(vals: Seq<ValueModel>) -> Seq<ValueModel>
    decreases vals.len(),
{
    if vals.len() == 0 {
        Seq::empty()
    } else {
        let d = distinct_present(vals.drop_last());
        let v = vals.last();
        if v is Null || d.contains(v) {
            d
        } else {
            d.push(v)
        }
    }
}

/// The aggregations this library computes: those whose results are not
/// floating-point numbers, and not the mode, whose choice among equally
/// frequent values is left open.
pub open spec fn computed_op(op: AggOp) -> bool {
    !(op is Mean || op is Std || op is Var || op is Median || op is Mode)
}

/// What an aggregation gives a group of `rows` rows whose values in the
/// aggregated column are `vals` (`None`: the aggregation names no column):
/// the value, or the message of its error.
pub open spec fn agg_cell(op: AggOp, vals: Option<Seq<ValueModel>>, rows: nat) -> Result<ValueModel, Seq<char>> {
    if op is Count {
        Ok(ValueModel::Int(rows as i64))
    } else {
        match vals {
            None => Err(agg_op_name(op) + " requires a column"@),
            Some(vs) => match op {
                AggOp::Sum => match sum_of(vs) {
                    Err(v) => Err("cannot sum non-numeric value: "@ + kind_name(v)),
                    Ok(None) => Ok(ValueModel::Null),
                    Ok(Some(t)) => Ok(ValueModel::Int(t as i64)),
                },
                AggOp::Min | AggOp::Max => match extreme_of(vs, op is Max) {
                    Err((a, b)) => Err("cannot compare "@ + kind_name(a) + " and "@ + kind_name(b)),
                    Ok(v) => Ok(v),
                },
                AggOp::First => Ok(
                    if vs.len() > 0 {
                        vs[0]
                    } else {
                        ValueModel::Null
                    },
                ),
                AggOp::Last => Ok(
                    if vs.len() > 0 {
                        vs.last()
                    } else {
                        ValueModel::Null
                    },
                ),
                AggOp::CountDistinct => Ok(ValueModel::Int(distinct_present(vs).len() as i64)),
                _ => Ok(ValueModel::Null),
            },
        }
    }
}

/// The values of `col` at the rows, in order.
fn values_at(col: &Vec<Value>, rows: &Vec<usize>) -> (r: Vec<Value>)
    requires
        forall|x: int| 0 <= x < rows@.len() ==> (#[trigger] rows@[x] as int) < col@.len(),
    ensures
        value_views(r@) == super::series::pick(value_views(col@), rows@),
{
    let mut out: Vec<Value> = Vec::new();
    let mut x: usize = 0;
    while x < rows.len()
        invariant
            x <= rows@.len(),
            forall|y: int| 0 <= y < rows@.len() ==> (#[trigger] rows@[y] as int) < col@.len(),
            out@.len() == x,
            forall|y: int| 0 <= y < x ==> (#[trigger] out@[y])@ == col@[rows@[y] as int]@,
        decreases rows.len() - x,
    {
        out.push(copy_value(&col[rows[x]]));
        x = x + 1;
    }
    assert(value_views(out@) =~= super::series::pick(value_views(col@), rows@));
    out
}

/// The message of an aggregation that needs a column and has none.
fn requires_column_message(op: AggOp) -> (m: String)
    ensures
        m@ == agg_op_name(op) + " requires a column"@,
{
    let mut m = copy_str(op.name());
    m.append(" requires a column");
    m
}

/// What an aggregation gives a group with the given values.
fn agg_cell_exec(op: AggOp, vals: Option<&Vec<Value>>, rows: usize) -> (r: Result<Value, String>)
    requires
        computed_op(op),
        vals matches Some(vs) ==> op is Sum ==> sums_fit(value_views(vs@)),
    ensures
        match agg_cell(
            op,
            match vals {
                Some(vs) => Some(value_views(vs@)),
                None => None,
            },
            rows as nat,
        ) {
            Ok(v) => r matches Ok(x) && x@ == v,
            Err(m) => r matches Err(e) && e@ == m,
        },
{
    if matches!(op, AggOp::Count) {
        return Ok(Value::Int(rows as i64));
    }
    let vs = match vals {
        None => return Err(requires_column_message(op)),
        Some(vs) => vs,
    };
    let ghost vv = value_views(vs@);
    match op {
        AggOp::Sum => {
            let mut total: i64 = 0;
            let mut any = false;
            let mut i: usize = 0;
            while i < vs.len()
                invariant
                    i <= vs@.len(),
                    op == AggOp::Sum,
                    vals == Some(vs),
                    vv == value_views(vs@),
                    sums_fit(vv),
                    sum_of(vv.take(i as int)) matches Ok(s) && (s matches Some(t) ==> any && t == total) && (s is None
                        ==> !any && total == 0),
                decreases vs.len() - i,
            {
                assert(vv.take(i + 1).drop_last() =~= vv.take(i as int));
                assert(vv.take(i + 1).last() == vv[i as int]);
                assert(sum_fits(sum_of(vv.take(i + 1))));
                match &vs[i] {
                    Value::Int(x) => {
                        total = total + *x;
                        any = true;
                    },
                    Value::Null => {},
                    other => {
                        proof {
                            assert(!(vv[i as int] is Int) && !(vv[i as int] is Null));
                            assert(sum_of(vv.take(i + 1)) == Err::<Option<int>, ValueModel>(vv[i as int]));
                            lemma_sum_error_prefix(vv, (i + 1) as int);
                        }
                        let mut m = copy_str("cannot sum non-numeric value: ");
                        m.append(kind_name_exec(other).as_str());
                        assert(m@ == "cannot sum non-numeric value: "@ + kind_name(vv[i as int]));
                        return Err(m);
                    },
                }
                i = i + 1;
            }
            assert(vv.take(vv.len() as int) =~= vv);
            if any {
                Ok(Value::Int(total))
            } else {
                Ok(Value::Null)
            }
        },
        AggOp::Min | AggOp::Max => {
            let greatest = matches!(op, AggOp::Max);
            let mut cur = Value::Null;
            let mut i: usize = 0;
            while i < vs.len()
                invariant
                    i <= vs@.len(),
                    op == AggOp::Min || op == AggOp::Max,
                    vals == Some(vs),
                    vv == value_views(vs@),
                    greatest == (op is Max),
                    extreme_of(vv.take(i as int), greatest) == Ok::<ValueModel, (ValueModel, ValueModel)>(cur@),
                decreases vs.len() - i,
            {
                assert(vv.take(i + 1).drop_last() =~= vv.take(i as int));
                assert(vv.take(i + 1).last() == vv[i as int]);
                let v = &vs[i];
                if matches!(v, Value::Null) {
                } else if matches!(cur, Value::Null) {
                    cur = copy_value(v);
                } else {
                    let ok = match (v, &cur) {
                        (Value::Int(_), Value::Int(_)) => true,
                        (Value::String(_), Value::String(_)) => true,
                        _ => false,
                    };
                    if !ok {
                        proof {
                            assert(!comparable(vv[i as int], cur@));
                            assert(extreme_of(vv.take(i + 1), greatest) == Err::<ValueModel, (ValueModel, ValueModel)>(
                                if greatest {
                                    (cur@, vv[i as int])
                                } else {
                                    (vv[i as int], cur@)
                                },
                            ));
                            lemma_extreme_error_prefix(vv, greatest, (i + 1) as int);
                        }
                        let mut m = copy_str("cannot compare ");
                        if greatest {
                            m.append(kind_name_exec(&cur).as_str());
                            m.append(" and ");
                            m.append(kind_name_exec(v).as_str());
                        } else {
                            m.append(kind_name_exec(v).as_str());
                            m.append(" and ");
                            m.append(kind_name_exec(&cur).as_str());
                        }
                        return Err(m);
                    }
                    let replace = if greatest {
                        value_before(&cur, v)
                    } else {
                        value_before(v, &cur)
                    };
                    if replace {
                        cur = copy_value(v);
                    }
                }
                i = i + 1;
            }
            assert(vv.take(vv.len() as int) =~= vv);
            Ok(cur)
        },
        AggOp::First => {
            if vs.len() > 0 {
                Ok(copy_value(&vs[0]))
            } else {
                Ok(Value::Null)
            }
        },
        AggOp::Last => {
            if vs.len() > 0 {
                Ok(copy_value(&vs[vs.len() - 1]))
            } else {
                Ok(Value::Null)
            }
        },
        _ => {
            let mut seen: Vec<Value> = Vec::new();
            let mut i: usize = 0;
            while i < vs.len()
                invariant
                    i <= vs@.len(),
                    vv == value_views(vs@),
                    value_views(seen@) == distinct_present(vv.take(i as int)),
                    seen@.len() <= i,
                decreases vs.len() - i,
            {
                assert(vv.take(i + 1).drop_last() =~= vv.take(i as int));
                assert(vv.take(i + 1).last() == vv[i as int]);
                if !matches!(&vs[i], Value::Null) && !contains_value(&seen, &vs[i]) {
                    let ghost before = seen@;
                    seen.push(copy_value(&vs[i]));
                    assert(value_views(seen@) =~= value_views(before).push(vv[i as int]));
                }
                i = i + 1;
            }
            assert(vv.take(vv.len() as int) =~= vv);
            Ok(Value::Int(seen.len() as i64))
        },
    }
}

/// A sum error met among the first `k` values is the error of all.
proof fn lemma_sum_error_prefix(vals: Seq<ValueModel>, k: int)
    requires
        0 <= k <= vals.len(),
        sum_of(vals.take(k)) is Err,
    ensures
        sum_of(vals) == sum_of(vals.take(k)),
    decreases vals.len() - k,
{
    if k < vals.len() {
        assert(vals.take(k + 1).drop_last() =~= vals.take(k));
        lemma_sum_error_prefix(vals, k + 1);
    } else {
        assert(vals.take(k) =~= vals);
    }
}

/// An extreme error met among the first `k` values is the error of all.
proof fn lemma_extreme_error_prefix(vals: Seq<ValueModel>, greatest: bool, k: int)
    requires
        0 <= k <= vals.len(),
        extreme_of(vals.take(k), greatest) is Err,
    ensures
        extreme_of(vals, greatest) == extreme_of(vals.take(k), greatest),
    decreases vals.len() - k,
{
    if k < vals.len() {
        assert(vals.take(k + 1).drop_last() =~= vals.take(k));
        lemma_extreme_error_prefix(vals, greatest, k + 1);
    } else {
        assert(vals.take(k) =~= vals);
    }
}


// ---------------------------------------------------------------------------
// Aggregating all groups
// ---------------------------------------------------------------------------

/// Each group's component of the key for group column `c`, in group order.
pub open spec fn group_key_column(gs: Seq<(Seq<ValueModel>, Seq<usize>)>, c: int) -> Seq<ValueModel> {
    Seq::new(gs.len(), |g: int| gs[g].0[c])
}

/// The order the groups are listed in: by each group column in turn,
/// ascending, missing values last.
pub open spec fn group_sort_keys(gs: Seq<(Seq<ValueModel>, Seq<usize>)>, cols: Seq<Series>, names: Seq<Seq<char>>) -> Seq<
    SortKey,
> {
    Seq::new(names.len(), |c: int| (group_key_column(gs, c), false, named(cols, names[c]).kind()))
}

/// The column an aggregation reads: none, the values of the first column
/// of its name, or that name where the table has no such column.
pub open spec fn agg_source(spec: AggSpec, cols: Seq<Series>) -> Result<Option<Seq<ValueModel>>, Seq<char>> {
    match spec.column {
        None => Ok(None),
        Some(c) => if first_named(cols, c@) < 0 {
            Err(c@)
        } else {
            Ok(Some(named(cols, c@).cells()))
        },
    }
}

/// What an aggregation gives the first `k` groups of the order, or its
/// first error.
pub open spec fn agg_prefix(
    op: AggOp,
    col: Option<Seq<ValueModel>>,
    gs: Seq<(Seq<ValueModel>, Seq<usize>)>,
    order: Seq<usize>,
    k: nat,
) -> Result<Seq<ValueModel>, Seq<char>>
    decreases k,
{
    if k == 0 {
        Ok(Seq::empty())
    } else {
        match agg_prefix(op, col, gs, order, (k - 1) as nat) {
            Err(m) => Err(m),
            Ok(vs) => {
                let rows = gs[order[k - 1] as int].1;
                match agg_cell(
                    op,
                    match col {
                        Some(cv) => Some(pick(cv, rows)),
                        None => None,
                    },
                    rows.len(),
                ) {
                    Err(m) => Err(m),
                    Ok(v) => Ok(vs.push(v)),
                }
            },
        }
    }
}

/// The columns the aggregations give the groups in the order, or the first
/// error: a column the table lacks (`true`), or a message.
pub open spec fn agg_columns(
    specs: Seq<AggSpec>,
    cols: Seq<Series>,
    gs: Seq<(Seq<ValueModel>, Seq<usize>)>,
    order: Seq<usize>,
) -> Result<Seq<(Seq<char>, Seq<ValueModel>)>, (bool, Seq<char>)>
    decreases specs.len(),
{
    if specs.len() == 0 {
        Ok(Seq::empty())
    } else {
        match agg_columns(specs.drop_last(), cols, gs, order) {
            Err(e) => Err(e),
            Ok(cs) => {
                let sp = specs.last();
                match agg_source(sp, cols) {
                    Err(n) => Err((true, n)),
                    Ok(col) => match agg_prefix(sp.op, col, gs, order, gs.len()) {
                        Err(m) => Err((false, m)),
                        Ok(vs) => Ok(cs.push((sp.output_name@, vs))),
                    },
                }
            },
        }
    }
}

/// The group columns of the result: each group's key, in the order.
pub open spec fn key_content(gs: Seq<(Seq<ValueModel>, Seq<usize>)>, names: Seq<Seq<char>>, order: Seq<usize>) -> Seq<
    (Seq<char>, Seq<ValueModel>),
> {
    Seq::new(names.len(), |c: int| (names[c], pick(group_key_column(gs, c), order)))
}

/// Every sum the aggregations take of a group fits an `i64`, and they are
/// all aggregations this library computes.
pub open spec fn aggregable(specs: Seq<AggSpec>, cols: Seq<Series>, gs: Seq<(Seq<ValueModel>, Seq<usize>)>) -> bool {
    forall|k: int|
        0 <= k < specs.len() ==> computed_op((#[trigger] specs[k]).op) && (specs[k].op is Sum ==> match agg_source(
            specs[k],
            cols,
        ) {
            Ok(Some(cv)) => forall|g: int| 0 <= g < gs.len() ==> sums_fit(#[trigger] pick(cv, gs[g].1)),
            _ => true,
        })
}

/// The types of the columns of an aggregation of no groups: each group
/// column's own, then for each aggregation integers for a count, else its
/// column's type (integers without one); or the first column the table
/// lacks.
pub open spec fn empty_types(specs: Seq<AggSpec>, cols: Seq<Series>) -> Result<Seq<SeriesType>, Seq<char>>
    decreases specs.len(),
{
    if specs.len() == 0 {
        Ok(Seq::empty())
    } else {
        match empty_types(specs.drop_last(), cols) {
            Err(e) => Err(e),
            Ok(ts) => {
                let sp = specs.last();
                if sp.op is Count {
                    Ok(ts.push(SeriesType::Int64))
                } else {
                    match sp.column {
                        None => Ok(ts.push(SeriesType::Int64)),
                        Some(c) => if first_named(cols, c@) < 0 {
                            Err(c@)
                        } else {
                            Ok(ts.push(named(cols, c@).kind()))
                        },
                    }
                }
            },
        }
    }
}

/// The name an aggregation's result gets: the one asked for, else `default`.
pub open spec fn name_or_column(output_name: Option<&str>, default: Seq<char>) -> Seq<char> {
    match output_name {
        Some(o) => o@,
        None => default,
    }
}

/// The group keys hold values of their columns' types.
proof fn lemma_group_keys_typed(kc: Seq<Vec<Value>>, kv: Seq<Seq<ValueModel>>, n: nat, types: Seq<SeriesType>)
    requires
        n <= usize::MAX,
        kc.len() == kv.len(),
        types.len() == kv.len(),
        forall|c: int| 0 <= c < kc.len() ==> value_views((#[trigger] kc[c])@) == kv[c],
        forall|c: int| 0 <= c < kc.len() ==> (#[trigger] kc[c])@.len() == n,
        forall|c: int, r: int| 0 <= c < kv.len() && 0 <= r < n ==> fits(types[c], #[trigger] kv[c][r]),
    ensures
        forall|g: int| 0 <= g < groups_by(kv, n).len() ==> (#[trigger] groups_by(kv, n)[g]).0.len() == kv.len(),
        forall|g: int, c: int|
            0 <= g < groups_by(kv, n).len() && 0 <= c < kv.len() ==> fits(types[c], #[trigger] groups_by(kv, n)[g].0[c]),
{
    lemma_groups_views(kc, kv, n);
    lemma_groups_partition(kc, n);
    lemma_groups_nonempty(kv, n);
    let gs = groups_by(kv, n);
    assert forall|g: int| 0 <= g < gs.len() implies (#[trigger] gs[g]).0.len() == kv.len() by {
        assert(gs[g].1.len() > 0);
        let r = gs[g].1[0] as int;
        assert(row_key(kc, r) == gs[g].0);
    }
    assert forall|g: int, c: int| 0 <= g < gs.len() && 0 <= c < kv.len() implies fits(types[c], #[trigger] gs[g].0[c]) by {
        assert(gs[g].1.len() > 0);
        let r = gs[g].1[0] as int;
        assert(row_key(kc, r) == gs[g].0);
        assert(row_key(kc, r)[c] == kc[c]@[r]@);
        assert(value_views(kc[c]@)[r] == kc[c]@[r]@);
    }
}

impl GroupedDataFrame {
    /// What aggregating the groups by `specs` gives: see [`Self::aggregate`].
    pub open spec fn aggregated(self, specs: Seq<AggSpec>, r: Result<DataFrame, DataError>) -> bool
    {
            let gs = self.group_list();
            let cols = self.source_spec().series();
            let names = self.column_names();
            if gs.len() == 0 {
                match empty_types(specs, cols) {
                    Err(n) => r matches Err(DataError::ColumnNotFound(c)) && c@ == n,
                    Ok(ts) => r matches Ok(df) && df.height() == 0 && df.series().len() == names.len() + specs.len()
                        && forall|k: int|
                        0 <= k < df.series().len() ==> (#[trigger] df.series()[k]).cells().len() == 0 && (if k
                            < names.len() {
                            df.series()[k].name_view() == names[k] && df.series()[k].kind() == named(
                                cols,
                                names[k],
                            ).kind()
                        } else {
                            df.series()[k].name_view() == specs[k - names.len()].output_name@
                                && df.series()[k].kind() == ts[k - names.len()]
                        }),
                }
            } else {
                exists|order: Seq<usize>|
                    sorted_rows(group_sort_keys(gs, cols, names), gs.len(), order) && match agg_columns(
                        specs,
                        cols,
                        gs,
                        order,
                    ) {
                        Err((missing, m)) => if missing {
                            r matches Err(DataError::ColumnNotFound(c)) && c@ == m
                        } else {
                            r matches Err(DataError::InvalidOperation(e)) && e@ == m
                        },
                        Ok(acs) => framed(key_content(gs, names, order) + acs, r),
                    }
            }
        }

    /// The aggregations of the groups: the group columns with each group's
    /// key, then one column per aggregation named by its output name,
    /// with the groups listed by their keys, ascending, missing values
    /// last (see [`group_sort_keys`]). A column an aggregation names that
    /// the table lacks fails with `ColumnNotFound`, a failing aggregation
    /// (one that needs a column and has none, a sum of non-numbers, an
    /// extreme of values that cannot be compared) with `InvalidOperation`,
    /// the first aggregation first and, within it, the first group. With
    /// no groups the result has no rows and columns of the types
    /// [`empty_types`] gives.
    pub fn aggregate(&self, specs: &[AggSpec]) -> (r: Result<DataFrame, DataError>)
        requires
            aggregable(specs@, self.source_spec().series(), self.group_list()),
        ensures
            self.aggregated(specs@, r),
    {
        proof {
            use_type_invariant(self);
        }
        let cols = self.source.series_ref();
        let n = self.source.num_rows();
        let ghost names = string_views(self.group_columns@);
        let ghost gs = groups_view(self.groups@);
        let ghost kv = key_cells(cols@, names);
        if self.groups.len() == 0 {
            return self.empty_result(specs);
        }
        proof {
            lemma_names_present(cols@, names);
        }
        let nc = self.group_columns.len();
        let mut kc: Vec<Vec<Value>> = Vec::new();
        let mut types: Vec<SeriesType> = Vec::new();
        let mut c: usize = 0;
        while c < nc
            invariant
                c <= nc,
                nc == self.group_columns@.len(),
                names == string_views(self.group_columns@),
                cols@ == self.source.series(),
                rect(cols@, n as nat),
                n == self.source.height(),
                kv == key_cells(cols@, names),
                forall|q: int| 0 <= q < names.len() ==> first_named(cols@, #[trigger] names[q]) >= 0,
                kc@.len() == c,
                types@.len() == c,
                forall|q: int| 0 <= q < c ==> value_views((#[trigger] kc@[q])@) == kv[q],
                forall|q: int| 0 <= q < c ==> (#[trigger] kc@[q])@.len() == n,
                forall|q: int| 0 <= q < c ==> #[trigger] types@[q] == named(cols@, names[q]).kind(),
                forall|q: int, x: int| 0 <= q < c && 0 <= x < n ==> fits(types@[q], #[trigger] kv[q][x]),
            decreases nc - c,
        {
            assert(names[c as int] == self.group_columns@[c as int]@);
            let j = match find_series(cols, self.group_columns[c].as_str()) {
                Some(j) => j,
                None => vstd::pervasive::unreached(),
            };
            let vr = cols[j].values_ref();
            let vals = match cols[j].to_values() {
                Ok(v) => v,
                Err(_) => vstd::pervasive::unreached(),
            };
            proof {
                assert(value_views(vals@).len() == vals@.len());
                assert forall|x: int| 0 <= x < n implies fits(cols@[j as int].kind(), #[trigger] kv[c as int][x]) by {
                    assert(kv[c as int] == value_views(vr@));
                    assert(value_views(vr@)[x] == vr@[x]@);
                }
            }
            kc.push(vals);
            types.push(cols[j].data_type());
            c = c + 1;
        }
        proof {
            lemma_group_keys_typed(kc@, kv, n as nat, types@);
        }
        let ng = self.groups.len();
        let mut keyvals: Vec<Vec<Value>> = Vec::new();
        let mut c: usize = 0;
        while c < nc
            invariant
                c <= nc,
                nc == names.len(),
                ng == gs.len(),
                gs == groups_view(self.groups@),
                gs == groups_by(kv, n as nat),
                kv.len() == nc,
                forall|g: int| 0 <= g < gs.len() ==> (#[trigger] gs[g]).0.len() == kv.len(),
                keyvals@.len() == c,
                forall|q: int| 0 <= q < c ==> value_views((#[trigger] keyvals@[q])@) == group_key_column(gs, q),
            decreases nc - c,
        {
            let mut vals: Vec<Value> = Vec::new();
            let mut g: usize = 0;
            while g < ng
                invariant
                    g <= ng,
                    c < nc,
                    ng == gs.len(),
                    gs == groups_view(self.groups@),
                    kv.len() == nc,
                    forall|g2: int| 0 <= g2 < gs.len() ==> (#[trigger] gs[g2]).0.len() == kv.len(),
                    vals@.len() == g,
                    forall|x: int| 0 <= x < g ==> (#[trigger] vals@[x])@ == gs[x].0[c as int],
                decreases ng - g,
            {
                assert(gs[g as int].0.len() == kv.len());
                assert(gs[g as int].0 == keys_view(self.groups@[g as int].0@));
                let k = &self.groups[g].0[c];
                assert(key_value(*k)@ == group_key_view(*k));
                vals.push(k.to_value());
                g = g + 1;
            }
            assert(value_views(vals@) =~= group_key_column(gs, c as int));
            keyvals.push(vals);
            c = c + 1;
        }
        let ghost ks = group_sort_keys(gs, cols@, names);
        let mut keys: Vec<(&Vec<Value>, bool)> = Vec::new();
        let mut c: usize = 0;
        while c < nc
            invariant
                c <= nc,
                keyvals@.len() == nc,
                ks == group_sort_keys(gs, cols@, names),
                ks.len() == nc,
                forall|q: int| 0 <= q < nc ==> value_views((#[trigger] keyvals@[q])@) == group_key_column(gs, q),
                keys@.len() == c,
                forall|q: int| 0 <= q < c ==> value_views((#[trigger] keys@[q]).0@) == ks[q].0 && keys@[q].1 == ks[q].1,
            decreases nc - c,
        {
            keys.push((&keyvals[c], false));
            c = c + 1;
        }
        proof {
            assert forall|q: int| 0 <= q < ks.len() implies (#[trigger] ks[q]).0.len() == ng && forall|x: int|
                0 <= x < ng ==> fits(ks[q].2, #[trigger] ks[q].0[x]) by {
                assert forall|x: int| 0 <= x < ng implies fits(ks[q].2, #[trigger] ks[q].0[x]) by {
                    assert(ks[q].0[x] == gs[x].0[q]);
                    assert(types@[q] == ks[q].2);
                }
            }
        }
        let order = stable_order(&keys, ng, Ghost(ks));
        let ghost kcont = key_content(gs, names, order@);
        let mut t: Vec<(String, Vec<Value>)> = Vec::new();
        let mut c: usize = 0;
        while c < nc
            invariant
                c <= nc,
                nc == names.len(),
                names == string_views(self.group_columns@),
                keyvals@.len() == nc,
                forall|q: int| 0 <= q < nc ==> value_views((#[trigger] keyvals@[q])@) == group_key_column(gs, q),
                forall|q: int| 0 <= q < nc ==> (#[trigger] keyvals@[q])@.len() == ng,
                sorted_rows(ks, ng as nat, order@),
                kcont == key_content(gs, names, order@),
                t@.len() == c,
                forall|q: int| 0 <= q < c ==> #[trigger] table_view(t@)[q] == kcont[q],
            decreases nc - c,
        {
            assert(value_views(keyvals@[c as int]@).len() == keyvals@[c as int]@.len());
            let vals = values_at(&keyvals[c], &order);
            let ghost before = t@;
            t.push((self.group_columns[c].clone(), vals));
            proof {
                assert(names[c as int] == self.group_columns@[c as int]@);
                assert forall|q: int| 0 <= q < t@.len() implies #[trigger] table_view(t@)[q] == kcont[q] by {
                    if q < c {
                        assert(table_view(t@)[q] == table_view(before)[q]);
                    }
                }
            }
            c = c + 1;
        }
        proof {
            lemma_groups_views(kc@, kv, n as nat);
            lemma_groups_partition(kc@, n as nat);
        }
        let ghost mut acs: Seq<(Seq<char>, Seq<ValueModel>)> = Seq::empty();
        let mut k: usize = 0;
        while k < specs.len()
            invariant
                k <= specs@.len(),
                nc == names.len(),
                ng == gs.len(),
                gs == groups_view(self.groups@),
                cols@ == self.source.series(),
                rect(cols@, n as nat),
                aggregable(specs@, cols@, gs),
                forall|g: int, x: int|
                    0 <= g < gs.len() && 0 <= x < gs[g].1.len() ==> (#[trigger] gs[g].1[x] as nat) < n,
                sorted_rows(ks, ng as nat, order@),
                ks == group_sort_keys(gs, cols@, names),
                names == string_views(self.group_columns@),
                ng > 0,
                agg_columns(specs@.take(k as int), cols@, gs, order@) == Ok::<Seq<(Seq<char>, Seq<ValueModel>)>, (bool, Seq<char>)>(acs),
                table_view(t@) == kcont + acs,
            decreases specs.len() - k,
        {
            assert(specs@.take(k + 1).drop_last() =~= specs@.take(k as int));
            assert(specs@.take(k + 1).last() == specs@[k as int]);
            let sp = &specs[k];
            let col: Option<&Vec<Value>> = match &sp.column {
                None => None,
                Some(name) => match find_series(cols, name.as_str()) {
                    None => {
                        proof {
                            assert(agg_source(specs@[k as int], cols@) == Err::<Option<Seq<ValueModel>>, Seq<char>>(name@));
                            assert(agg_columns(specs@.take(k + 1), cols@, gs, order@) == Err::<Seq<(Seq<char>, Seq<ValueModel>)>, (bool, Seq<char>)>((true, name@)));
                            lemma_agg_columns_err(specs@, cols@, gs, order@, (k + 1) as int);
                            assert(sorted_rows(group_sort_keys(gs, cols@, names), gs.len(), order@));
                        }
                        return Err(DataError::ColumnNotFound(name.clone()));
                    },
                    Some(j) => Some(cols[j].values_ref()),
                },
            };
            let ghost src = match agg_source(*sp, cols@) {
                Ok(o) => o,
                Err(_) => None,
            };
            assert(agg_source(*sp, cols@) == Ok::<Option<Seq<ValueModel>>, Seq<char>>(src));
            assert(col matches Some(cv) ==> src == Some(value_views(cv@)) && cv@.len() == n);
            assert(col is None ==> src is None);
            let mut vals: Vec<Value> = Vec::new();
            assert(value_views(vals@) =~= Seq::<ValueModel>::empty());
            let mut x: usize = 0;
            while x < ng
                invariant
                    x <= ng,
                    k < specs@.len(),
                    sp == specs@[k as int],
                    ng == gs.len(),
                    gs == groups_view(self.groups@),
                    aggregable(specs@, cols@, gs),
                    agg_source(*sp, cols@) == Ok::<Option<Seq<ValueModel>>, Seq<char>>(src),
                    col matches Some(cv) ==> src == Some(value_views(cv@)) && cv@.len() == n,
                    col is None ==> src is None,
                    forall|g: int, y: int|
                        0 <= g < gs.len() && 0 <= y < gs[g].1.len() ==> (#[trigger] gs[g].1[y] as nat) < n,
                    sorted_rows(ks, ng as nat, order@),
                    agg_prefix(sp.op, src, gs, order@, x as nat) == Ok::<Seq<ValueModel>, Seq<char>>(value_views(vals@)),
                    cols@ == self.source.series(),
                    ks == group_sort_keys(gs, cols@, names),
                    names == string_views(self.group_columns@),
                    ng > 0,
                    agg_columns(specs@.take(k as int), cols@, gs, order@) == Ok::<Seq<(Seq<char>, Seq<ValueModel>)>, (bool, Seq<char>)>(acs),
                    specs@.take(k + 1).drop_last() == specs@.take(k as int),
                    specs@.take(k + 1).last() == specs@[k as int],
                decreases ng - x,
            {
                let g = order[x];
                let rows = &self.groups[g].1;
                assert(rows@ == gs[g as int].1);
                assert(specs@[k as int].op == sp.op);
                let cellvals: Option<Vec<Value>> = match col {
                    Some(cv) => Some(values_at(cv, rows)),
                    None => None,
                };
                proof {
                    if sp.op is Sum {
                        if col is Some {
                            assert(sums_fit(pick(src->0, gs[g as int].1)));
                        }
                    }
                }
                let cell = match &cellvals {
                    Some(v) => agg_cell_exec(sp.op, Some(v), rows.len()),
                    None => agg_cell_exec(sp.op, None, rows.len()),
                };
                match cell {
                    Ok(v) => {
                        let ghost before = vals@;
                        vals.push(v);
                        assert(value_views(vals@) =~= value_views(before).push(v@));
                    },
                    Err(m) => {
                        proof {
                            lemma_agg_prefix_err(sp.op, src, gs, order@, (x + 1) as nat, ng as nat);
                            assert(agg_prefix(sp.op, src, gs, order@, ng as nat) == Err::<Seq<ValueModel>, Seq<char>>(m@));
                            assert(agg_columns(specs@.take(k + 1), cols@, gs, order@) == Err::<Seq<(Seq<char>, Seq<ValueModel>)>, (bool, Seq<char>)>((false, m@)));
                            lemma_agg_columns_err(specs@, cols@, gs, order@, (k + 1) as int);
                            assert(sorted_rows(group_sort_keys(gs, cols@, names), gs.len(), order@));
                        }
                        return Err(DataError::InvalidOperation(m));
                    },
                }
                x = x + 1;
            }
            let ghost before = t@;
            t.push((sp.output_name.clone(), vals));
            proof {
                acs = acs.push((sp.output_name@, value_views(vals@)));
                assert(table_view(t@) =~= table_view(before).push((sp.output_name@, value_views(vals@))));
            }
            k = k + 1;
        }
        assert(specs@.take(specs@.len() as int) =~= specs@);
        assert(sorted_rows(group_sort_keys(gs, cols@, names), gs.len(), order@));
        frame_from_table(t)
    }

    /// The aggregation by the one spec `spec`.
    fn aggregate_one(&self, spec: AggSpec) -> (r: Result<DataFrame, DataError>)
        requires
            aggregable(seq![spec], self.source_spec().series(), self.group_list()),
        ensures
            self.aggregated(seq![spec], r),
    {
        let specs = vec![spec];
        assert(specs@ =~= seq![spec]);
        self.aggregate(specs.as_slice())
    }

    /// Every sum of a group's values in the named column fits an `i64`
    /// (where the table has that column).
    pub open spec fn column_sums_fit(self, column: Seq<char>) -> bool {
        let cols = self.source_spec().series();
        let gs = self.group_list();
        first_named(cols, column) >= 0 ==> forall|g: int|
            0 <= g < gs.len() ==> sums_fit(#[trigger] pick(named(cols, column).cells(), gs[g].1))
    }

    /// Sum of a column per group, named `output_name`, else the column's
    /// name.
    pub fn sum(&self, column: &str, output_name: Option<&str>) -> (r: Result<DataFrame, DataError>)
        requires
            self.column_sums_fit(column@),
        ensures
            exists|sp: AggSpec|
                #![trigger sp.on_column(AggOp::Sum, column@, name_or_column(output_name, column@))]
                sp.on_column(AggOp::Sum, column@, name_or_column(output_name, column@)) && self.aggregated(seq![sp], r),
    {
        let out = match output_name {
            Some(o) => o,
            None => column,
        };
        let sp = AggSpec::sum(column, out);
        assert(out@ == name_or_column(output_name, column@));
        assert(sp.on_column(AggOp::Sum, column@, name_or_column(output_name, column@)));
        assert(seq![sp][0] == sp);
        self.aggregate_one(sp)
    }

    /// Least value of a column per group, named `output_name`, else the
    /// column's name.
    pub fn min(&self, column: &str, output_name: Option<&str>) -> (r: Result<DataFrame, DataError>)
        ensures
            exists|sp: AggSpec|
                #![trigger sp.on_column(AggOp::Min, column@, name_or_column(output_name, column@))]
                sp.on_column(AggOp::Min, column@, name_or_column(output_name, column@)) && self.aggregated(seq![sp], r),
    {
        let out = match output_name {
            Some(o) => o,
            None => column,
        };
        let sp = AggSpec::min(column, out);
        assert(out@ == name_or_column(output_name, column@));
        assert(sp.on_column(AggOp::Min, column@, name_or_column(output_name, column@)));
        assert(seq![sp][0] == sp);
        self.aggregate_one(sp)
    }

    /// Greatest value of a column per group, named `output_name`, else the
    /// column's name.
    pub fn max(&self, column: &str, output_name: Option<&str>) -> (r: Result<DataFrame, DataError>)
        ensures
            exists|sp: AggSpec|
                #![trigger sp.on_column(AggOp::Max, column@, name_or_column(output_name, column@))]
                sp.on_column(AggOp::Max, column@, name_or_column(output_name, column@)) && self.aggregated(seq![sp], r),
    {
        let out = match output_name {
            Some(o) => o,
            None => column,
        };
        let sp = AggSpec::max(column, out);
        assert(out@ == name_or_column(output_name, column@));
        assert(sp.on_column(AggOp::Max, column@, name_or_column(output_name, column@)));
        assert(seq![sp][0] == sp);
        self.aggregate_one(sp)
    }

    /// Number of rows per group, named `output_name`, else `count`.
    pub fn count(&self, output_name: Option<&str>) -> (r: Result<DataFrame, DataError>)
        ensures
            exists|sp: AggSpec|
                #![trigger self.aggregated(seq![sp], r)]
                sp.op == AggOp::Count && sp.column is None && sp.output_name@ == name_or_column(output_name, "count"@)
                    && self.aggregated(seq![sp], r),
    {
        let out = match output_name {
            Some(o) => o,
            None => "count",
        };
        let sp = AggSpec::count(out);
        assert(seq![sp][0] == sp);
        self.aggregate_one(sp)
    }

    /// First value of a column per group, named `output_name`, else the
    /// column's name.
    pub fn first(&self, column: &str, output_name: Option<&str>) -> (r: Result<DataFrame, DataError>)
        ensures
            exists|sp: AggSpec|
                #![trigger sp.on_column(AggOp::First, column@, name_or_column(output_name, column@))]
                sp.on_column(AggOp::First, column@, name_or_column(output_name, column@)) && self.aggregated(seq![sp], r),
    {
        let out = match output_name {
            Some(o) => o,
            None => column,
        };
        let sp = AggSpec::first(column, out);
        assert(out@ == name_or_column(output_name, column@));
        assert(sp.on_column(AggOp::First, column@, name_or_column(output_name, column@)));
        assert(seq![sp][0] == sp);
        self.aggregate_one(sp)
    }

    /// Last value of a column per group, named `output_name`, else the
    /// column's name.
    pub fn last(&self, column: &str, output_name: Option<&str>) -> (r: Result<DataFrame, DataError>)
        ensures
            exists|sp: AggSpec|
                #![trigger sp.on_column(AggOp::Last, column@, name_or_column(output_name, column@))]
                sp.on_column(AggOp::Last, column@, name_or_column(output_name, column@)) && self.aggregated(seq![sp], r),
    {
        let out = match output_name {
            Some(o) => o,
            None => column,
        };
        let sp = AggSpec::last(column, out);
        assert(out@ == name_or_column(output_name, column@));
        assert(sp.on_column(AggOp::Last, column@, name_or_column(output_name, column@)));
        assert(seq![sp][0] == sp);
        self.aggregate_one(sp)
    }

    /// Number of distinct present values of a column per group, named
    /// `output_name`, else the column's name.
    pub fn count_distinct(&self, column: &str, output_name: Option<&str>) -> (r: Result<DataFrame, DataError>)
        ensures
            exists|sp: AggSpec|
                #![trigger sp.on_column(AggOp::CountDistinct, column@, name_or_column(output_name, column@))]
                sp.on_column(AggOp::CountDistinct, column@, name_or_column(output_name, column@)) && self.aggregated(
                    seq![sp],
                    r,
                ),
    {
        let out = match output_name {
            Some(o) => o,
            None => column,
        };
        let sp = AggSpec::count_distinct(column, out);
        assert(out@ == name_or_column(output_name, column@));
        assert(sp.on_column(AggOp::CountDistinct, column@, name_or_column(output_name, column@)));
        assert(seq![sp][0] == sp);
        self.aggregate_one(sp)
    }

    /// The aggregation of no groups: no rows, columns of the types
    /// [`empty_types`] gives.
    fn empty_result(&self, specs: &[AggSpec]) -> (r: Result<DataFrame, DataError>)
        requires
            first_missing_name(self.source_spec().series(), self.column_names()) < 0,
        ensures
            ({
                let cols = self.source_spec().series();
                let names = self.column_names();
                match empty_types(specs@, cols) {
                    Err(n) => r matches Err(DataError::ColumnNotFound(c)) && c@ == n,
                    Ok(ts) => r matches Ok(df) && df.height() == 0 && df.series().len() == names.len() + specs@.len()
                        && forall|k: int|
                        0 <= k < df.series().len() ==> (#[trigger] df.series()[k]).cells().len() == 0 && (if k
                            < names.len() {
                            df.series()[k].name_view() == names[k] && df.series()[k].kind() == named(cols, names[k]).kind()
                        } else {
                            df.series()[k].name_view() == specs@[k - names.len()].output_name@ && df.series()[k].kind()
                                == ts[k - names.len()]
                        }),
                }
            }),
    {
        let cols = self.source.series_ref();
        let ghost names = string_views(self.group_columns@);
        proof {
            lemma_names_present(cols@, names);
        }
        let nc = self.group_columns.len();
        let mut out: Vec<Series> = Vec::new();
        let mut c: usize = 0;
        while c < nc
            invariant
                c <= nc,
                nc == names.len(),
                names == string_views(self.group_columns@),
                cols@ == self.source.series(),
                forall|q: int| 0 <= q < names.len() ==> first_named(cols@, #[trigger] names[q]) >= 0,
                out@.len() == c,
                forall|q: int|
                    0 <= q < c ==> (#[trigger] out@[q]).cells().len() == 0 && out@[q].name_view() == names[q]
                        && out@[q].kind() == named(cols@, names[q]).kind(),
            decreases nc - c,
        {
            assert(names[c as int] == self.group_columns@[c as int]@);
            let j = match find_series(cols, self.group_columns[c].as_str()) {
                Some(j) => j,
                None => vstd::pervasive::unreached(),
            };
            let s = Series::assemble(self.group_columns[c].clone(), cols[j].data_type(), Vec::new());
            assert(s.cells() =~= Seq::<ValueModel>::empty());
            out.push(s);
            c = c + 1;
        }
        let ghost mut ts: Seq<SeriesType> = Seq::empty();
        let mut k: usize = 0;
        while k < specs.len()
            invariant
                k <= specs@.len(),
                nc == names.len(),
                cols@ == self.source.series(),
                empty_types(specs@.take(k as int), cols@) == Ok::<Seq<SeriesType>, Seq<char>>(ts),
                ts.len() == k,
                out@.len() == nc + k,
                forall|q: int|
                    0 <= q < out@.len() ==> (#[trigger] out@[q]).cells().len() == 0 && (if q < nc {
                        out@[q].name_view() == names[q] && out@[q].kind() == named(cols@, names[q]).kind()
                    } else {
                        out@[q].name_view() == specs@[q - nc].output_name@ && out@[q].kind() == ts[q - nc]
                    }),
            decreases specs.len() - k,
        {
            assert(specs@.take(k + 1).drop_last() =~= specs@.take(k as int));
            assert(specs@.take(k + 1).last() == specs@[k as int]);
            let sp = &specs[k];
            let t = if matches!(sp.op, AggOp::Count) {
                SeriesType::Int64
            } else {
                match &sp.column {
                    None => SeriesType::Int64,
                    Some(name) => match find_series(cols, name.as_str()) {
                        None => {
                            proof {
                                lemma_empty_types_err(specs@, cols@, (k + 1) as int);
                            }
                            return Err(DataError::ColumnNotFound(name.clone()));
                        },
                        Some(j) => cols[j].data_type(),
                    },
                }
            };
            let s = Series::assemble(sp.output_name.clone(), t, Vec::new());
            assert(s.cells() =~= Seq::<ValueModel>::empty());
            let ghost before = out@;
            out.push(s);
            proof {
                ts = ts.push(t);
                assert forall|q: int| 0 <= q < out@.len() implies (#[trigger] out@[q]).cells().len() == 0 && (if q < nc {
                    out@[q].name_view() == names[q] && out@[q].kind() == named(cols@, names[q]).kind()
                } else {
                    out@[q].name_view() == specs@[q - nc].output_name@ && out@[q].kind() == ts[q - nc]
                }) by {
                    if q < out@.len() - 1 {
                        assert(out@[q] == before[q]);
                    }
                }
            }
            k = k + 1;
        }
        assert(specs@.take(specs@.len() as int) =~= specs@);
        Ok(DataFrame::make(out, 0))
    }
}

/// Without a missing name every name names a column.
proof fn lemma_names_present(cols: Seq<Series>, names: Seq<Seq<char>>)
    requires
        first_missing_name(cols, names) < 0,
    ensures
        forall|q: int| 0 <= q < names.len() ==> first_named(cols, #[trigger] names[q]) >= 0,
    decreases names.len(),
{
    if names.len() > 0 {
        lemma_names_present(cols, names.drop_last());
        assert forall|q: int| 0 <= q < names.len() implies first_named(cols, #[trigger] names[q]) >= 0 by {
            if q < names.len() - 1 {
                assert(names[q] == names.drop_last()[q]);
            }
        }
    }
}

/// An aggregation error met among the first `k` aggregations is the error
/// of all.
proof fn lemma_agg_columns_err(
    specs: Seq<AggSpec>,
    cols: Seq<Series>,
    gs: Seq<(Seq<ValueModel>, Seq<usize>)>,
    order: Seq<usize>,
    k: int,
)
    requires
        0 <= k <= specs.len(),
        agg_columns(specs.take(k), cols, gs, order) is Err,
    ensures
        agg_columns(specs, cols, gs, order) == agg_columns(specs.take(k), cols, gs, order),
    decreases specs.len() - k,
{
    if k < specs.len() {
        assert(specs.take(k + 1).drop_last() =~= specs.take(k));
        lemma_agg_columns_err(specs, cols, gs, order, k + 1);
    } else {
        assert(specs.take(k) =~= specs);
    }
}

/// An error met in the first `k` groups is the error of the first `m`.
proof fn lemma_agg_prefix_err(
    op: AggOp,
    col: Option<Seq<ValueModel>>,
    gs: Seq<(Seq<ValueModel>, Seq<usize>)>,
    order: Seq<usize>,
    k: nat,
    m: nat,
)
    requires
        k <= m,
        agg_prefix(op, col, gs, order, k) is Err,
    ensures
        agg_prefix(op, col, gs, order, m) == agg_prefix(op, col, gs, order, k),
    decreases m - k,
{
    if k < m {
        lemma_agg_prefix_err(op, col, gs, order, k, (m - 1) as nat);
    }
}

/// A missing column met among the first `k` aggregations is the first.
proof fn lemma_empty_types_err(specs: Seq<AggSpec>, cols: Seq<Series>, k: int)
    requires
        0 <= k <= specs.len(),
        empty_types(specs.take(k), cols) is Err,
    ensures
        empty_types(specs, cols) == empty_types(specs.take(k), cols),
    decreases specs.len() - k,
{
    if k < specs.len() {
        assert(specs.take(k + 1).drop_last() =~= specs.take(k));
        lemma_empty_types_err(specs, cols, k + 1);
    } else {
        assert(specs.take(k) =~= specs);
    }
}

/// The distinct present values of `vals`, as `distinct_present` gives
/// them: present, from `vals`, each once, every present value of `vals`
/// among them, and no more of them than `vals` has present values.
proof fn lemma_distinct_present(vals: Seq<ValueModel>)
    ensures
        distinct_present(vals).no_duplicates(),
        forall|i: int|
            0 <= i < distinct_present(vals).len() ==> !(#[trigger] distinct_present(vals)[i] is Null) && vals.contains(
                distinct_present(vals)[i],
            ),
        forall|i: int| 0 <= i < vals.len() && !(#[trigger] vals[i] is Null) ==> distinct_present(vals).contains(vals[i]),
        distinct_present(vals).len() + null_total(vals) <= vals.len(),
    decreases vals.len(),
{
    if vals.len() > 0 {
        let p = vals.drop_last();
        let v = vals.last();
        lemma_distinct_present(p);
        let d = distinct_present(p);
        let d2 = distinct_present(vals);
        assert forall|i: int| 0 <= i < d2.len() implies !(#[trigger] d2[i] is Null) && vals.contains(d2[i]) by {
            if i < d.len() {
                assert(d2[i] == d[i]);
                let j = choose|j: int| 0 <= j < p.len() && p[j] == d[i];
                assert(vals[j] == d[i]);
            } else {
                assert(d2[i] == v);
                assert(vals[vals.len() - 1] == v);
            }
        }
        assert forall|i: int| 0 <= i < vals.len() && !(#[trigger] vals[i] is Null) implies d2.contains(vals[i]) by {
            if i < vals.len() - 1 {
                assert(p[i] == vals[i]);
                assert(d.contains(vals[i]));
                let j = choose|j: int| 0 <= j < d.len() && d[j] == vals[i];
                assert(d2[j] == vals[i]);
            } else {
                if !d.contains(v) {
                    assert(d2[d.len() as int] == v);
                }
            }
        }
        if !(v is Null) && !d.contains(v) {
            assert forall|a: int, b: int| 0 <= a < d2.len() && 0 <= b < d2.len() && a != b implies d2[a] != d2[b] by {
                if a < d.len() && b < d.len() {
                } else if a < d.len() {
                    assert(d2[a] == d[a]);
                    assert(d.contains(d[a]));
                } else {
                    assert(d2[b] == d[b]);
                    assert(d.contains(d[b]));
                }
            }
        }
    }
}

/// Counting distinct values counts the distinct present values of the
/// group: there is a list of them, each present, each from the group and
/// each once, holding every present value of the group, with as many
/// entries as the count; so the count is never more than the present
/// values, and a group of missing values only counts zero.
pub proof fn lemma_count_distinct_counts_present(vals: Seq<ValueModel>, rows: nat)
    requires
        vals.len() <= i64::MAX,
    ensures
        exists|ds: Seq<ValueModel>|
            #![trigger ds.no_duplicates()]
            agg_cell(AggOp::CountDistinct, Some(vals), rows) == Ok::<ValueModel, Seq<char>>(
                ValueModel::Int(ds.len() as i64),
            ) && ds.no_duplicates() && (forall|i: int|
                0 <= i < ds.len() ==> !(#[trigger] ds[i] is Null) && vals.contains(ds[i])) && (forall|i: int|
                0 <= i < vals.len() && !(#[trigger] vals[i] is Null) ==> ds.contains(vals[i]))
                && ds.len() + null_total(vals) <= vals.len(),
{
    lemma_distinct_present(vals);
    let ds = distinct_present(vals);
    assert(ds.no_duplicates());
}

} // verus!
