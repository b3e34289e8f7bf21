//! Running a query plan against a table: each operation of the plan is
//! applied, in order, through the `DataFrame` operation it names, and the
//! first error ends the run.

use vstd::prelude::*;

use super::dataframe::{
    add_refusal, added, rect, added_length_message, cells_of, complete_rows, fill_or_keep, first_missing_name,
    first_named, first_occurrences, first_out_of_range, first_uneven, kept_names, named_cells, names_of,
    picked_columns, renamed_name, replaced_list, same_columns, selected, sliced_columns, uneven_message,
    DataFrame,
};
use super::error::DataError;
use super::expr::{eval_expr, Evaluated};
use super::frame_join::joined_content;
use super::frame_ops::{exploded, frame_table, framed};
use super::frame_sort::{sort_keys, sorted_rows};
use super::grouped::AggSpec;
use super::grouped_frame::{aggregable, groups_by, key_cells, GroupedDataFrame};
use super::join::JoinSpec;
use super::lazy::{flush, merge_state, merged_limits, min_limit, optimized, FilterPredicate, LazyFrame, LazyGroupBy, LazyOp, LazySource, WindowSpec};
use super::merge::{string_views, table_view};
use super::predicate::{eval_rows, table_rows};
use super::series::{expected_name, first_misfit, inferred_type, kind_name, null_total, pick, Series, SeriesType};
use super::value::{value_views, Value, ValueModel};
use super::window::{window_at, window_fits, window_inputs};

verus! {

// ---------------------------------------------------------------------------
// What each operation gives
// ---------------------------------------------------------------------------

/// `t` holds, as names and values, the columns of `df`.
pub open spec fn table_of_frame(t: Seq<(String, Vec<Value>)>, df: DataFrame) -> bool {
    table_view(t) == frame_table(df.series()) && table_rows(t, df.height())
}

/// The projection of `df` on the named columns.
pub open spec fn select_gives(df: DataFrame, names: Seq<Seq<char>>, r: Result<DataFrame, DataError>) -> bool {
    let m = first_missing_name(df.series(), names);
    if m >= 0 {
        r matches Err(DataError::ColumnNotFound(c)) && c@ == names[m]
    } else {
        r matches Ok(d) && selected(d.series(), df.series(), names) && d.height() == if names.len() == 0 {
            0
        } else {
            df.height()
        }
    }
}

/// `df` without the named columns.
pub open spec fn drop_gives(df: DataFrame, names: Seq<Seq<char>>, r: Result<DataFrame, DataError>) -> bool {
    let keep = kept_names(df.series(), names);
    if keep.len() == 0 {
        r matches Err(DataError::EmptyData)
    } else {
        r matches Ok(d) && selected(d.series(), df.series(), keep) && d.height() == df.height()
    }
}

/// The rows of `df` from `from` on, `m` of them.
pub open spec fn rows_from(df: DataFrame, from: int, m: nat, r: Result<DataFrame, DataError>) -> bool {
    r matches Ok(d) && d.height() == m && sliced_columns(d.series(), df.series(), from, from + m)
}

/// The first `n` rows of `df` (all of them if there are fewer).
pub open spec fn head_gives(df: DataFrame, n: usize, r: Result<DataFrame, DataError>) -> bool {
    rows_from(df, 0, if n < df.height() { n as nat } else { df.height() }, r)
}

/// The last `n` rows of `df` (all of them if there are fewer).
pub open spec fn tail_gives(df: DataFrame, n: usize, r: Result<DataFrame, DataError>) -> bool {
    let m = if n < df.height() { n as nat } else { df.height() };
    rows_from(df, df.height() - m, m, r)
}

/// The rows of `df` at the positions, in their order.
pub open spec fn rows_at_gives(df: DataFrame, idx: Seq<usize>, r: Result<DataFrame, DataError>) -> bool {
    if idx.len() == 0 {
        r matches Ok(d) && d.height() == 0 && sliced_columns(d.series(), df.series(), 0, 0)
    } else if first_out_of_range(idx, df.height()) >= 0 {
        r matches Err(DataError::OutOfBounds { index, length }) && index == idx[first_out_of_range(
            idx,
            df.height(),
        )] && length == df.height()
    } else {
        r matches Ok(d) && d.height() == idx.len() && picked_columns(d.series(), df.series(), idx)
    }
}

/// The rows of `df` that satisfy the predicate, in order.
pub open spec fn filter_gives(df: DataFrame, p: FilterPredicate, r: Result<DataFrame, DataError>) -> bool {
    exists|t: Seq<(String, Vec<Value>)>|
        #![trigger table_of_frame(t, df)]
        table_of_frame(t, df) && match eval_rows(t, df.height(), p) {
            Err(name) => r matches Err(DataError::ColumnNotFound(c)) && c@ == name,
            Ok(rows) => rows_at_gives(df, rows, r),
        }
}

/// The sort keys a plan's sort gives: each column with its descending flag,
/// as many as both lists have.
pub open spec fn sort_keys_of(columns: Seq<String>, ascending: Seq<bool>, keys: Seq<(&str, bool)>) -> bool {
    &&& keys.len() == if columns.len() <= ascending.len() {
        columns.len()
    } else {
        ascending.len()
    }
    &&& forall|i: int| 0 <= i < keys.len() ==> (#[trigger] keys[i]).0@ == columns[i]@ && keys[i].1 == !ascending[i]
}

/// The rows of `df` sorted by the keys (name and descending flag).
pub open spec fn sort_gives(df: DataFrame, keys: Seq<(&str, bool)>, r: Result<DataFrame, DataError>) -> bool {
    let names = keys.map_values(|c: (&str, bool)| c.0@);
    let m = first_missing_name(df.series(), names);
    if keys.len() == 0 || df.height() == 0 {
        r matches Ok(d) && same_columns(d.series(), df.series()) && d.height() == df.height()
    } else if m >= 0 {
        r matches Err(DataError::ColumnNotFound(c)) && c@ == names[m]
    } else {
        r matches Ok(d) && d.height() == df.height() && d.series().len() == df.series().len() && exists|
            idx: Seq<usize>,
        |
            sorted_rows(sort_keys(df.series(), keys), df.height(), idx) && forall|k: int|
                0 <= k < d.series().len() ==> (#[trigger] d.series()[k]).name_view() == df.series()[k].name_view()
                    && d.series()[k].kind() == df.series()[k].kind() && d.series()[k].cells() == pick(
                    df.series()[k].cells(),
                    idx,
                )
    }
}

/// `df` with column `old` renamed `new`.
pub open spec fn rename_gives(df: DataFrame, old: Seq<char>, new: Seq<char>, r: Result<DataFrame, DataError>) -> bool {
    r matches Ok(d) && d.series().len() == df.series().len() && d.height() == if df.series().len() == 0 {
        0
    } else {
        df.height()
    } && forall|k: int|
        0 <= k < d.series().len() ==> {
            let src = df.series()[first_named(df.series(), df.series()[k].name_view())];
            &&& (#[trigger] d.series()[k]).name_view() == renamed_name(df.series()[k].name_view(), old, new)
            &&& d.series()[k].kind() == src.kind()
            &&& d.series()[k].cells() == src.cells()
        }
}

/// `tr` is the table after each of the renames in turn, from `df` on.
pub open spec fn renamed_along(df: DataFrame, pairs: Seq<(String, String)>, tr: Seq<DataFrame>) -> bool {
    &&& tr.len() == pairs.len() + 1
    &&& tr[0] == df
    &&& forall|i: int|
        0 <= i < pairs.len() ==> rename_gives(
            #[trigger] tr[i],
            pairs[i].0@,
            pairs[i].1@,
            Ok::<DataFrame, DataError>(tr[i + 1]),
        )
}

/// `df` with each pair's column renamed in turn.
pub open spec fn renames_give(df: DataFrame, pairs: Seq<(String, String)>, r: Result<DataFrame, DataError>) -> bool {
    exists|tr: Seq<DataFrame>| #[trigger] renamed_along(df, pairs, tr) && r == Ok::<DataFrame, DataError>(tr.last())
}

/// The first of each run of equal rows of `df`.
pub open spec fn distinct_gives(df: DataFrame, r: Result<DataFrame, DataError>) -> bool {
    if df.height() == 0 {
        r matches Ok(d) && same_columns(d.series(), df.series()) && d.height() == 0
    } else {
        r matches Ok(d) && {
            let idx = first_occurrences(cells_of(df.series()), df.height());
            d.height() == idx.len() && picked_columns(d.series(), df.series(), idx)
        }
    }
}

/// The first row of `df` for each combination of the named columns' values.
pub open spec fn distinct_by_gives(df: DataFrame, names: Seq<Seq<char>>, r: Result<DataFrame, DataError>) -> bool {
    if df.height() == 0 {
        r matches Ok(d) && same_columns(d.series(), df.series()) && d.height() == 0
    } else if first_missing_name(df.series(), names) >= 0 {
        r matches Err(DataError::ColumnNotFound(c)) && c@ == names[first_missing_name(df.series(), names)]
    } else {
        r matches Ok(d) && {
            let idx = first_occurrences(named_cells(df.series(), names), df.height());
            d.height() == idx.len() && picked_columns(d.series(), df.series(), idx)
        }
    }
}

/// `df` with its missing values filled with `v` where the column's type
/// holds it.
pub open spec fn fillna_gives(df: DataFrame, v: ValueModel, r: Result<DataFrame, DataError>) -> bool {
    r matches Ok(d) && d.height() == if df.series().len() == 0 {
        0
    } else {
        df.height()
    } && d.series().len() == df.series().len() && forall|k: int|
        0 <= k < d.series().len() ==> (#[trigger] d.series()[k]).name_view() == df.series()[k].name_view()
            && d.series()[k].kind() == df.series()[k].kind() && d.series()[k].cells() == fill_or_keep(
            df.series()[k],
            v,
        )
}

/// The rows of `df` without missing values.
pub open spec fn dropna_gives(df: DataFrame, r: Result<DataFrame, DataError>) -> bool {
    let cells = named_cells(df.series(), names_of(df.series()));
    if df.height() == 0 {
        r matches Ok(d) && same_columns(d.series(), df.series()) && d.height() == 0
    } else if forall|c: int| 0 <= c < cells.len() ==> null_total(#[trigger] cells[c]) == 0 {
        r matches Ok(d) && same_columns(d.series(), df.series()) && d.height() == df.height()
    } else {
        r matches Ok(d) && {
            let idx = complete_rows(cells, df.height());
            d.height() == idx.len() && if idx.len() == 0 {
                sliced_columns(d.series(), df.series(), 0, 0)
            } else {
                picked_columns(d.series(), df.series(), idx)
            }
        }
    }
}

/// `df` with the column `s` added, or put in place of the column of its name.
pub open spec fn with_column_gives(df: DataFrame, s: Series, r: Result<DataFrame, DataError>) -> bool {
    let len = s.cells().len();
    let rl = replaced_list(df.series(), s);
    let u = first_uneven(rl);
    if len != df.height() && df.height() != 0 {
        r matches Err(DataError::SchemaMismatch(e)) && e@ == added_length_message(s.name_view(), len, df.height())
    } else if first_named(df.series(), s.name_view()) >= 0 {
        if u >= 0 {
            r matches Err(DataError::SchemaMismatch(e)) && e@ == uneven_message(
                rl[u].name_view(),
                rl[u].cells().len(),
                rl[0].cells().len(),
            )
        } else {
            r matches Ok(d) && same_columns(d.series(), rl) && d.height() == rl[0].cells().len()
        }
    } else {
        match add_refusal(df.series(), df.height(), s.name_view(), len) {
            Some(m) => r matches Err(DataError::SchemaMismatch(e)) && e@ == m,
            None => r matches Ok(d) && added(d, df.series(), s.name_view(), s.kind(), s.cells()),
        }
    }
}

/// `df` with a column named `name` of the values `vs`, of the type they
/// infer; values that do not all fit that type fail with `TypeMismatch`.
pub open spec fn column_added(df: DataFrame, name: Seq<char>, vs: Seq<ValueModel>, r: Result<DataFrame, DataError>) -> bool {
    let t = inferred_type(vs);
    let k = first_misfit(t, vs);
    if k >= 0 {
        r matches Err(DataError::TypeMismatch { expected, found }) && expected@ == expected_name(t) && found@
            == kind_name(vs[k])
    } else {
        exists|s: Series|
            #![trigger with_column_gives(df, s, r)]
            s.name_view() == name && s.kind() == t && s.cells() == vs && with_column_gives(df, s, r)
    }
}

/// `df` with the window function's values as a new column; a table without
/// rows is left as it is.
pub open spec fn window_gives(df: DataFrame, spec: WindowSpec, r: Result<DataFrame, DataError>) -> bool {
    if df.height() == 0 {
        r == Ok::<DataFrame, DataError>(df)
    } else {
        exists|t: Seq<(String, Vec<Value>)>|
            #![trigger table_of_frame(t, df)]
            table_of_frame(t, df) && match window_inputs(t, df.height(), spec) {
                Err(name) => r matches Err(DataError::ColumnNotFound(c)) && c@ == name,
                Ok((col, parts)) => column_added(
                    df,
                    spec.output_name@,
                    Seq::new(df.height(), |i: int| window_at(spec.func, col, parts, df.height(), i)),
                    r,
                ),
            }
    }
}

/// `df` with the expression's values as a column named `name`.
pub open spec fn computed_gives(df: DataFrame, name: Seq<char>, expr: super::lazy::ColumnExpr, r: Result<DataFrame, DataError>) -> bool {
    exists|t: Seq<(String, Vec<Value>)>|
        #![trigger table_of_frame(t, df)]
        table_of_frame(t, df) && match eval_expr(t, df.height(), expr) {
            Evaluated::Values(vs) => column_added(df, name, vs, r),
            Evaluated::Missing(c) => r matches Err(DataError::ColumnNotFound(x)) && x@ == c,
            Evaluated::Beyond => false,
        }
}

/// `df` joined with `other` by the spec.
pub open spec fn join_gives(df: DataFrame, other: DataFrame, spec: JoinSpec, r: Result<DataFrame, DataError>) -> bool {
    if first_named(df.series(), spec.left_column@) < 0 {
        r matches Err(DataError::ColumnNotFound(c)) && c@ == spec.left_column@
    } else if first_named(other.series(), spec.right_column@) < 0 {
        r matches Err(DataError::ColumnNotFound(c)) && c@ == spec.right_column@
    } else {
        framed(joined_content(df.series(), other.series(), spec), r)
    }
}

/// `df` joined with the right side's result `rr`, or `rr`'s error.
pub open spec fn joined_with(df: DataFrame, rr: Result<DataFrame, DataError>, spec: JoinSpec, r: Result<DataFrame, DataError>) -> bool {
    match rr {
        Err(e) => r == Err::<DataFrame, DataError>(e),
        Ok(rd) => join_gives(df, rd, spec, r),
    }
}

/// `df` with the named column's lists spread over rows.
pub open spec fn explode_gives(df: DataFrame, column: Seq<char>, r: Result<DataFrame, DataError>) -> bool {
    if first_named(df.series(), column) < 0 {
        r matches Err(DataError::ColumnNotFound(c)) && c@ == column
    } else {
        framed(exploded(df.series(), column), r)
    }
}

// ---------------------------------------------------------------------------
// Running plans
// ---------------------------------------------------------------------------

/// What applying `op` to `df` gives, by the `DataFrame` operation it names.
/// A join runs the right side's plan on the right side's table first.
pub open spec fn op_runs(df: DataFrame, op: LazyOp, r: Result<DataFrame, DataError>) -> bool
    decreases op, 0int,
{
    match op {
        LazyOp::Select(cols) => select_gives(df, string_views(cols@), r),
        LazyOp::Drop(cols) => drop_gives(df, string_views(cols@), r),
        LazyOp::Filter(p) => filter_gives(df, p, r),
        LazyOp::Sort { columns, ascending } => exists|keys: Seq<(&str, bool)>|
            #![trigger sort_gives(df, keys, r)]
            sort_keys_of(columns@, ascending@, keys) && sort_gives(df, keys, r),
        LazyOp::Limit(n) => head_gives(df, n, r),
        LazyOp::Offset(n) => tail_gives(df, if n < df.height() { (df.height() - n) as usize } else { 0 }, r),
        LazyOp::Tail(n) => tail_gives(df, n, r),
        LazyOp::Rename(pairs) => renames_give(df, pairs@, r),
        LazyOp::Distinct => distinct_gives(df, r),
        LazyOp::DistinctBy(cols) => distinct_by_gives(df, string_views(cols@), r),
        LazyOp::Join { right, spec } => match right.source {
            LazySource::DataFrame(rdf) => exists|rr: Result<DataFrame, DataError>|
                #![trigger joined_with(df, rr, spec, r)]
                plan_runs(rdf, right.ops@, rr) && joined_with(df, rr, spec, r),
            _ => false,
        },
        LazyOp::FillNa(v) => fillna_gives(df, v@, r),
        LazyOp::DropNa => dropna_gives(df, r),
        LazyOp::Window(spec) => window_gives(df, spec, r),
        LazyOp::WithColumn { name, expr } => computed_gives(df, name@, expr, r),
        LazyOp::Explode(c) => explode_gives(df, c@, r),
    }
}

/// One step of a run: an error stays, a table (each of its columns as long
/// as the table) goes through `op`.
pub open spec fn step_runs(prev: Result<DataFrame, DataError>, op: LazyOp, next: Result<DataFrame, DataError>) -> bool
    decreases op, 1int,
{
    match prev {
        Err(e) => next == Err::<DataFrame, DataError>(e),
        Ok(d) => rect(d.series(), d.height()) && op_runs(d, op, next),
    }
}

/// `tr` is what the run holds before each operation and after the last,
/// from `src` on.
pub open spec fn runs_along(src: DataFrame, ops: Seq<LazyOp>, tr: Seq<Result<DataFrame, DataError>>) -> bool
    decreases ops, 2int,
{
    &&& tr.len() == ops.len() + 1
    &&& tr[0] == Ok::<DataFrame, DataError>(src)
    &&& forall|i: int| 0 <= i < ops.len() ==> step_runs(#[trigger] tr[i], ops[i], tr[i + 1])
}

/// What running the operations in order on `src` gives: the table the last
/// gives, or the first error.
pub open spec fn plan_runs(src: DataFrame, ops: Seq<LazyOp>, r: Result<DataFrame, DataError>) -> bool
    decreases ops, 3int,
{
    exists|tr: Seq<Result<DataFrame, DataError>>| #![trigger tr.len()] runs_along(src, ops, tr) && r == tr.last()
}

/// `op` can run on `df`: no window function of floating-point values, none
/// whose positions overflow, no computed column of floating-point or
/// overflowing values, and a join's right side a table whose plan can run.
pub open spec fn op_runnable(df: DataFrame, op: LazyOp) -> bool
    decreases op,
{
    match op {
        LazyOp::Window(spec) => !spec.func.yields_floats() && window_fits(spec.func, df.height()),
        LazyOp::WithColumn { name, expr } => forall|t: Seq<(String, Vec<Value>)>|
            #![trigger table_of_frame(t, df)]
            table_of_frame(t, df) ==> !(eval_expr(t, df.height(), expr) is Beyond),
        LazyOp::Join { right, spec } => match right.source {
            LazySource::DataFrame(rdf) => plan_runnable(rdf, right.ops@),
            _ => false,
        },
        _ => true,
    }
}

/// Every operation of the plan can run on every table that the operations
/// before it give.
pub open spec fn plan_runnable(src: DataFrame, ops: Seq<LazyOp>) -> bool
    decreases ops,
{
    if ops.len() == 0 {
        true
    } else {
        plan_runnable(src, ops.drop_last()) && forall|d: DataFrame|
            #![trigger plan_runs(src, ops.drop_last(), Ok::<DataFrame, DataError>(d))]
            plan_runs(src, ops.drop_last(), Ok::<DataFrame, DataError>(d)) ==> op_runnable(d, ops.last())
    }
}

// ---------------------------------------------------------------------------
// Lemmas on runs
// ---------------------------------------------------------------------------

/// The operations before position `k` of a runnable plan are runnable.
proof fn lemma_runnable_prefix(src: DataFrame, ops: Seq<LazyOp>, k: int)
    requires
        plan_runnable(src, ops),
        0 <= k <= ops.len(),
    ensures
        plan_runnable(src, ops.take(k)),
    decreases ops.len(),
{
    if k == ops.len() {
        assert(ops.take(k) =~= ops);
    } else {
        assert(ops.drop_last().take(k) =~= ops.take(k));
        lemma_runnable_prefix(src, ops.drop_last(), k);
    }
}

/// An error met after the first `k` operations is the error of the whole
/// plan.
proof fn lemma_error_ends_run(
    src: DataFrame,
    ops: Seq<LazyOp>,
    k: int,
    tr: Seq<Result<DataFrame, DataError>>,
    e: DataError,
)
    requires
        0 <= k <= ops.len(),
        runs_along(src, ops.take(k), tr),
        tr.last() == Err::<DataFrame, DataError>(e),
    ensures
        plan_runs(src, ops, Err::<DataFrame, DataError>(e)),
{
    let tail = Seq::new((ops.len() - k) as nat, |j: int| Err::<DataFrame, DataError>(e));
    let tr2 = tr + tail;
    assert forall|i: int| 0 <= i < ops.len() implies step_runs(#[trigger] tr2[i], ops[i], tr2[i + 1]) by {
        if i < k {
            assert(ops.take(k)[i] == ops[i]);
            assert(step_runs(tr[i], ops.take(k)[i], tr[i + 1]));
        } else {
            assert(tr2[i] == Err::<DataFrame, DataError>(e));
            assert(tr2[i + 1] == Err::<DataFrame, DataError>(e));
        }
    }
    assert(runs_along(src, ops, tr2));
    assert(tr2.last() == Err::<DataFrame, DataError>(e));
}

/// A run of the first `i` operations that ends in `df` runs on to what
/// the next operation gives `df`.
proof fn lemma_run_extends(
    src: DataFrame,
    ops: Seq<LazyOp>,
    i: int,
    tr: Seq<Result<DataFrame, DataError>>,
    df: DataFrame,
    next: Result<DataFrame, DataError>,
)
    requires
        0 <= i < ops.len(),
        runs_along(src, ops.take(i), tr),
        tr.last() == Ok::<DataFrame, DataError>(df),
        rect(df.series(), df.height()),
        op_runs(df, ops[i], next),
    ensures
        runs_along(src, ops.take(i + 1), tr.push(next)),
{
    let tr1 = tr.push(next);
    assert forall|j: int| 0 <= j < i + 1 implies step_runs(#[trigger] tr1[j], ops.take(i + 1)[j], tr1[j + 1]) by {
        if j < i {
            assert(ops.take(i)[j] == ops.take(i + 1)[j]);
            assert(tr1[j] == tr[j] && tr1[j + 1] == tr[j + 1]);
            assert(step_runs(tr[j], ops.take(i)[j], tr[j + 1]));
        } else {
            assert(tr1[j] == Ok::<DataFrame, DataError>(df));
            assert(ops.take(i + 1)[j] == ops[i]);
        }
    }
}

/// The next operation of a runnable plan can run on what the run so far
/// gives.
proof fn lemma_runnable_next(
    src: DataFrame,
    ops: Seq<LazyOp>,
    i: int,
    tr: Seq<Result<DataFrame, DataError>>,
    df: DataFrame,
)
    requires
        0 <= i < ops.len(),
        plan_runnable(src, ops),
        runs_along(src, ops.take(i), tr),
        tr.last() == Ok::<DataFrame, DataError>(df),
    ensures
        op_runnable(df, ops[i]),
{
    lemma_runnable_prefix(src, ops, i + 1);
    assert(ops.take(i + 1).drop_last() =~= ops.take(i));
    assert(ops.take(i + 1).last() == ops[i]);
    assert(tr.len() == i + 1);
    assert(plan_runs(src, ops.take(i), Ok::<DataFrame, DataError>(df)));
}

// ---------------------------------------------------------------------------
// Running
// ---------------------------------------------------------------------------

/// The names as string slices.
fn str_refs(names: &Vec<String>) -> (r: Vec<&str>)
    ensures
        r@.map_values(|c: &str| c@) == string_views(names@),
{
    let mut out: Vec<&str> = Vec::new();
    let mut k: usize = 0;
    while k < names.len()
        invariant
            k <= names@.len(),
            out@.len() == k,
            forall|c: int| 0 <= c < k ==> (#[trigger] out@[c])@ == names@[c]@,
        decreases names.len() - k,
    {
        out.push(names[k].as_str());
        k = k + 1;
    }
    assert(out@.map_values(|c: &str| c@) =~= string_views(names@));
    out
}

/// The sort keys of a plan's sort: each column with its descending flag.
fn sort_key_refs<'a>(columns: &'a Vec<String>, ascending: &Vec<bool>) -> (r: Vec<(&'a str, bool)>)
    ensures
        sort_keys_of(columns@, ascending@, r@),
{
    let n = if columns.len() <= ascending.len() {
        columns.len()
    } else {
        ascending.len()
    };
    let mut out: Vec<(&str, bool)> = Vec::new();
    let mut k: usize = 0;
    while k < n
        invariant
            k <= n,
            n <= columns@.len(),
            n <= ascending@.len(),
            out@.len() == k,
            forall|c: int| 0 <= c < k ==> (#[trigger] out@[c]).0@ == columns@[c]@ && out@[c].1 == !ascending@[c],
        decreases n - k,
    {
        out.push((columns[k].as_str(), !ascending[k]));
        k = k + 1;
    }
    out
}

impl LazyFrame {
    /// Apply one operation to a table, by the `DataFrame` operation it
    /// names: see [`op_runs`].
    fn apply_op(df: DataFrame, op: LazyOp) -> (r: Result<DataFrame, DataError>)
        requires
            op_runnable(df, op),
        ensures
            op_runs(df, op, r),
        decreases op,
    {
        let ghost op0 = op;
        match op {
            LazyOp::Select(cols) => {
                let refs = str_refs(&cols);
                df.select(refs.as_slice())
            },
            LazyOp::Drop(cols) => {
                let refs = str_refs(&cols);
                df.drop(refs.as_slice())
            },
            LazyOp::Filter(p) => {
                let t = df.table_of();
                assert(table_of_frame(t@, df));
                match Self::evaluate_predicate(&t, df.num_rows(), &p) {
                    Err(e) => Err(e),
                    Ok(rows) => df.filter_by_indices(rows.as_slice()),
                }
            },
            LazyOp::Sort { columns, ascending } => {
                let keys = sort_key_refs(&columns, &ascending);
                let r = df.sort_by(keys.as_slice());
                assert(sort_gives(df, keys@, r));
                r
            },
            LazyOp::Limit(n) => df.head(n),
            LazyOp::Offset(n) => {
                let h = df.num_rows();
                let k: usize = if n < h {
                    h - n
                } else {
                    0
                };
                df.tail(k)
            },
            LazyOp::Tail(n) => df.tail(n),
            LazyOp::Rename(pairs) => {
                let ghost all = pairs@;
                let mut result = df;
                let ghost mut tr: Seq<DataFrame> = seq![df];
                let mut k: usize = 0;
                while k < pairs.len()
                    invariant
                        k <= all.len(),
                        all == pairs@,
                        renamed_along(df, all.take(k as int), tr),
                        tr.last() == result,
                    decreases pairs.len() - k,
                {
                    let next = result.rename_column(pairs[k].0.as_str(), pairs[k].1.as_str());
                    let out = match next {
                        Ok(d) => d,
                        Err(_) => vstd::pervasive::unreached(),
                    };
                    proof {
                        let tr1 = tr.push(out);
                        assert forall|i: int| 0 <= i < k + 1 implies rename_gives(
                            #[trigger] tr1[i],
                            all.take(k + 1)[i].0@,
                            all.take(k + 1)[i].1@,
                            Ok::<DataFrame, DataError>(tr1[i + 1]),
                        ) by {
                            if i < k {
                                assert(all.take(k as int)[i] == all.take(k + 1)[i]);
                                assert(tr1[i] == tr[i] && tr1[i + 1] == tr[i + 1]);
                            } else {
                                assert(tr1[i] == result);
                                assert(all.take(k + 1)[i] == all[k as int]);
                            }
                        }
                        tr = tr1;
                    }
                    result = out;
                    k = k + 1;
                }
                assert(all.take(all.len() as int) =~= all);
                assert(renamed_along(df, all, tr));
                Ok(result)
            },
            LazyOp::Distinct => df.distinct(),
            LazyOp::DistinctBy(cols) => {
                let refs = str_refs(&cols);
                df.distinct_by(refs.as_slice())
            },
            LazyOp::Join { right, spec } => {
                let LazyFrame { source, ops: rops } = *right;
                match source {
                    LazySource::DataFrame(rdf) => {
                        let ghost rsrc = rdf;
                        let rr = Self::run_ops(rdf, rops);
                        let ghost rr0 = rr;
                        let r = match rr {
                            Err(e) => Err(e),
                            Ok(rd) => df.join(&rd, &spec),
                        };
                        assert(plan_runs(rsrc, rops@, rr0) && joined_with(df, rr0, spec, r));
                        r
                    },
                    _ => vstd::pervasive::unreached(),
                }
            },
            LazyOp::FillNa(v) => df.fillna(&v),
            LazyOp::DropNa => df.dropna(),
            LazyOp::Window(spec) => {
                if df.num_rows() == 0 {
                    return Ok(df);
                }
                let t = df.table_of();
                assert(table_of_frame(t@, df));
                match Self::window_values(&t, df.num_rows(), &spec) {
                    Err(e) => Err(e),
                    Ok(vals) => {
                        assert(value_views(vals@) =~= Seq::new(
                            df.height(),
                            |i: int| window_at(spec.func, window_inputs(t@, df.height(), spec)->Ok_0.0, window_inputs(t@, df.height(), spec)->Ok_0.1, df.height(), i),
                        ));
                        match Series::from_values(spec.output_name.as_str(), vals.as_slice()) {
                            Err(e) => Err(e),
                            Ok(s) => {
                                let r = df.with_column(s);
                                assert(with_column_gives(df, s, r));
                                r
                            },
                        }
                    },
                }
            },
            LazyOp::WithColumn { name, expr } => {
                let t = df.table_of();
                assert(table_of_frame(t@, df));
                match Self::evaluate_expr(&t, df.num_rows(), &expr) {
                    Err(e) => Err(e),
                    Ok(vals) => match Series::from_values(name.as_str(), vals.as_slice()) {
                        Err(e) => Err(e),
                        Ok(s) => {
                            let r = df.with_column(s);
                            assert(with_column_gives(df, s, r));
                            r
                        },
                    },
                }
            },
            LazyOp::Explode(c) => df.explode(c.as_str()),
        }
    }

    /// Run the operations in order on `src`; the first error ends the run.
    fn run_ops(src: DataFrame, ops: Vec<LazyOp>) -> (r: Result<DataFrame, DataError>)
        requires
            plan_runnable(src, ops@),
        ensures
            plan_runs(src, ops@, r),
        decreases ops@,
    {
        let ghost all = ops@;
        let ghost s0 = src;
        assert(all.len() == ops.len());
        let mut rest = ops;
        let mut df = src;
        let ghost mut tr: Seq<Result<DataFrame, DataError>> = seq![Ok::<DataFrame, DataError>(s0)];
        let mut i: usize = 0;
        while rest.len() > 0
            invariant
                i + rest@.len() == all.len(),
                rest@ == all.skip(i as int),
                runs_along(s0, all.take(i as int), tr),
                tr.last() == Ok::<DataFrame, DataError>(df),
                plan_runnable(s0, all),
                s0 == src,
                all == ops@,
                all.len() <= usize::MAX,
            decreases rest.len(),
        {
            proof {
                lemma_runnable_next(s0, all, i as int, tr, df);
                assert(all.skip(i as int).remove(0) =~= all.skip(i + 1));
                assert(all.skip(i as int)[0] == all[i as int]);
            }
            let op = rest.remove(0);
            let _cols = df.series_ref();
            let ghost before = df;
            proof {
                assert(op == all[i as int]);
                assert(decreases_to!(all => all[i as int]));
                assert(decreases_to!(all => op));
            }
            let step = Self::apply_op(df, op);
            proof {
                lemma_run_extends(s0, all, i as int, tr, before, step);
                tr = tr.push(step);
            }
            match step {
                Ok(next) => {
                    df = next;
                },
                Err(e) => {
                    proof {
                        lemma_error_ends_run(s0, all, i + 1, tr, e);
                    }
                    return Err(e);
                },
            }
            i = i + 1;
        }
        assert(all.take(all.len() as int) =~= all);
        assert(runs_along(s0, all, tr));
        Ok(df)
    }
}

/// The table a plan was made from, if it was made from one.
pub open spec fn frame_source(lf: LazyFrame) -> Option<DataFrame> {
    match *lf.source_spec() {
        LazySource::DataFrame(d) => Some(d),
        _ => None,
    }
}

impl LazyFrame {
    /// Run the optimized plan on `source`: each operation in turn, through
    /// the `DataFrame` operation it names, the first error ending the run
    /// (see [`plan_runs`]). A join runs its right side's plan on the table
    /// that side was made from.
    pub fn execute(self, source: DataFrame) -> (r: Result<DataFrame, DataError>)
        requires
            plan_runnable(source, optimized(self.plan())),
        ensures
            plan_runs(source, optimized(self.plan()), r),
    {
        let opt = self.optimize();
        Self::run_ops(source, opt.ops)
    }

    /// Run the optimized plan on the table it was made from
    /// ([`LazyFrame::new`]).
    pub fn collect(self) -> (r: Result<DataFrame, DataError>)
        requires
            frame_source(self) is Some,
            plan_runnable(frame_source(self)->0, optimized(self.plan())),
        ensures
            plan_runs(frame_source(self)->0, optimized(self.plan()), r),
    {
        let opt = self.optimize();
        let LazyFrame { source, ops } = opt;
        match source {
            LazySource::DataFrame(df) => Self::run_ops(df, ops),
            _ => vstd::pervasive::unreached(),
        }
    }
}

/// What grouping `d` by the named columns and aggregating by `specs`
/// gives; see [`GroupedDataFrame::aggregated`].
pub open spec fn grouped_gives(d: DataFrame, names: Seq<Seq<char>>, specs: Seq<AggSpec>, r: Result<DataFrame, DataError>) -> bool {
    let m = first_missing_name(d.series(), names);
    if m >= 0 {
        r matches Err(DataError::ColumnNotFound(c)) && c@ == names[m]
    } else {
        exists|g: GroupedDataFrame|
            #![trigger g.aggregated(specs, r)]
            g.source_spec() == d && g.column_names() == names && g.group_list() == groups_by(
                key_cells(d.series(), names),
                d.height(),
            ) && g.aggregated(specs, r)
    }
}

/// What the grouped plan gives on `source`: its plan's result grouped and
/// aggregated, or the first error.
pub open spec fn group_runs(source: DataFrame, lg: LazyGroupBy, r: Result<DataFrame, DataError>) -> bool {
    exists|rr: Result<DataFrame, DataError>|
        #![trigger plan_runs(source, optimized(lg.source_spec().plan()), rr)]
        plan_runs(source, optimized(lg.source_spec().plan()), rr) && match rr {
            Err(e) => r == Err::<DataFrame, DataError>(e),
            Ok(d) => grouped_gives(d, string_views(lg.group_columns_spec()@), lg.aggregations(), r),
        }
}

/// Every sum the aggregations take of a group of every table the plan can
/// give fits an `i64`, and they are aggregations this library computes.
pub open spec fn group_aggregable(source: DataFrame, lg: LazyGroupBy) -> bool {
    forall|d: DataFrame|
        #![trigger plan_runs(source, optimized(lg.source_spec().plan()), Ok::<DataFrame, DataError>(d))]
        plan_runs(source, optimized(lg.source_spec().plan()), Ok::<DataFrame, DataError>(d)) ==> aggregable(
            lg.aggregations(),
            d.series(),
            groups_by(key_cells(d.series(), string_views(lg.group_columns_spec()@)), d.height()),
        )
}

impl LazyGroupBy {
    /// The plan's result grouped by the named columns and aggregated, or
    /// the plan's error.
    fn group_result(rr: Result<DataFrame, DataError>, group_columns: Vec<String>, agg_specs: Vec<AggSpec>) -> (r: Result<
        DataFrame,
        DataError,
    >)
        requires
            rr matches Ok(d) ==> aggregable(
                agg_specs@,
                d.series(),
                groups_by(key_cells(d.series(), string_views(group_columns@)), d.height()),
            ),
        ensures
            match rr {
                Err(e) => r == Err::<DataFrame, DataError>(e),
                Ok(d) => grouped_gives(d, string_views(group_columns@), agg_specs@, r),
            },
    {
        match rr {
            Err(e) => Err(e),
            Ok(d) => match GroupedDataFrame::new(d, group_columns) {
                Err(e) => Err(e),
                Ok(g) => {
                    let r = g.aggregate(agg_specs.as_slice());
                    assert(g.aggregated(agg_specs@, r));
                    r
                },
            },
        }
    }

    /// Run the grouped plan on `source`, then group its result by the
    /// group columns and aggregate it: see [`group_runs`].
    pub fn execute(self, source: DataFrame) -> (r: Result<DataFrame, DataError>)
        requires
            plan_runnable(source, optimized(self.source_spec().plan())),
            group_aggregable(source, self),
        ensures
            group_runs(source, self, r),
    {
        let ghost me = self;
        let LazyGroupBy { source: lf, group_columns, agg_specs } = self;
        let ghost src = source;
        let rr = lf.execute(source);
        assert(plan_runs(src, optimized(me.source_spec().plan()), rr));
        Self::group_result(rr, group_columns, agg_specs)
    }

    /// Run the grouped plan on the table it was made from, then group and
    /// aggregate its result.
    pub fn collect(self) -> (r: Result<DataFrame, DataError>)
        requires
            frame_source(self.source_spec()) is Some,
            plan_runnable(frame_source(self.source_spec())->0, optimized(self.source_spec().plan())),
            group_aggregable(frame_source(self.source_spec())->0, self),
        ensures
            group_runs(frame_source(self.source_spec())->0, self, r),
    {
        let ghost me = self;
        let LazyGroupBy { source: lf, group_columns, agg_specs } = self;
        let rr = lf.collect();
        assert(plan_runs(frame_source(me.source_spec())->0, optimized(me.source_spec().plan()), rr));
        Self::group_result(rr, group_columns, agg_specs)
    }
}

// ---------------------------------------------------------------------------
// The optimizer keeps what a plan gives
// ---------------------------------------------------------------------------

/// A run of a plan, cut before its last operation, is a run of the rest.
proof fn lemma_run_prefix(src: DataFrame, ops: Seq<LazyOp>, tr: Seq<Result<DataFrame, DataError>>)
    requires
        ops.len() > 0,
        runs_along(src, ops, tr),
    ensures
        runs_along(src, ops.drop_last(), tr.drop_last()),
{
    let p = ops.drop_last();
    let t = tr.drop_last();
    assert forall|i: int| 0 <= i < p.len() implies step_runs(#[trigger] t[i], p[i], t[i + 1]) by {
        assert(t[i] == tr[i] && t[i + 1] == tr[i + 1] && p[i] == ops[i]);
        assert(step_runs(tr[i], ops[i], tr[i + 1]));
    }
}

/// A run of a plan followed by one more step is a run of the longer plan.
proof fn lemma_run_push(
    src: DataFrame,
    ops: Seq<LazyOp>,
    tr: Seq<Result<DataFrame, DataError>>,
    op: LazyOp,
    next: Result<DataFrame, DataError>,
)
    requires
        runs_along(src, ops, tr),
        step_runs(tr.last(), op, next),
    ensures
        runs_along(src, ops.push(op), tr.push(next)),
{
    let p = ops.push(op);
    let t = tr.push(next);
    assert forall|i: int| 0 <= i < p.len() implies step_runs(#[trigger] t[i], p[i], t[i + 1]) by {
        if i < ops.len() {
            assert(t[i] == tr[i] && t[i + 1] == tr[i + 1] && p[i] == ops[i]);
            assert(step_runs(tr[i], ops[i], tr[i + 1]));
        } else {
            assert(t[i] == tr.last() && t[i + 1] == next && p[i] == op);
        }
    }
}

/// A limit of `p` rows, then one of `n`, keeps what one limit of the
/// smaller keeps.
pub proof fn lemma_limits_merge(d0: DataFrame, p: usize, d1: DataFrame, n: usize, r: Result<DataFrame, DataError>)
    requires
        rect(d0.series(), d0.height()),
        head_gives(d0, p, Ok::<DataFrame, DataError>(d1)),
        head_gives(d1, n, r),
    ensures
        head_gives(d0, min_limit(p, n), r),
{
    let d2 = r->Ok_0;
    let m1: nat = if p < d0.height() { p as nat } else { d0.height() };
    let m2: nat = if n < d1.height() { n as nat } else { d1.height() };
    assert forall|k: int| 0 <= k < d2.series().len() implies (#[trigger] d2.series()[k]).cells() == d0.series()[k].cells().subrange(
        0,
        m2 as int,
    ) by {
        assert(d2.series()[k].cells() == d1.series()[k].cells().subrange(0, m2 as int));
        assert(d1.series()[k].cells() == d0.series()[k].cells().subrange(0, m1 as int));
        assert(d0.series()[k].cells().subrange(0, m1 as int).subrange(0, m2 as int) =~= d0.series()[k].cells().subrange(
            0,
            m2 as int,
        ));
    }
}

/// A trace of the merged plan that ends where the given trace ends.
proof fn lemma_merged_trace(src: DataFrame, ops: Seq<LazyOp>, tr: Seq<Result<DataFrame, DataError>>) -> (tr2: Seq<
    Result<DataFrame, DataError>,
>)
    requires
        runs_along(src, ops, tr),
    ensures
        runs_along(src, merged_limits(ops), tr2),
        tr2.last() == tr.last(),
    decreases ops.len(),
{
    if ops.len() == 0 {
        assert(merged_limits(ops) == Seq::<LazyOp>::empty());
        tr
    } else {
        let s = ops.drop_last();
        let op = ops.last();
        let nn = ops.len() as int;
        lemma_run_prefix(src, ops, tr);
        let t2 = lemma_merged_trace(src, s, tr.drop_last());
        let st = merge_state(s);
        assert(ops.drop_last() == s);
        assert(step_runs(tr[nn - 1], ops[nn - 1], tr[nn]));
        assert(tr.drop_last().last() == tr[nn - 1]);
        assert(tr.last() == tr[nn]);
        match op {
            LazyOp::Limit(n) => {
                match st.1 {
                    None => {
                        assert(merged_limits(ops) == st.0.push(LazyOp::Limit(n)));
                        lemma_run_push(src, st.0, t2, LazyOp::Limit(n), tr.last());
                        t2.push(tr.last())
                    },
                    Some(pl) => {
                        let q = min_limit(pl, n);
                        assert(merged_limits(ops) == st.0.push(LazyOp::Limit(q)));
                        let fl = st.0.push(LazyOp::Limit(pl));
                        assert(flush(st) == fl);
                        assert(fl.drop_last() =~= st.0);
                        lemma_run_prefix(src, fl, t2);
                        let t3 = t2.drop_last();
                        let k = fl.len() as int;
                        assert(step_runs(t2[k - 1], fl[k - 1], t2[k]));
                        assert(t3.last() == t2[k - 1]);
                        match t2[k - 1] {
                            Err(e) => {
                                assert(t2.last() == Err::<DataFrame, DataError>(e));
                            },
                            Ok(d0) => {
                                let d1 = t2.last()->Ok_0;
                                lemma_limits_merge(d0, pl, d1, n, tr.last());
                            },
                        }
                        lemma_run_push(src, st.0, t3, LazyOp::Limit(q), tr.last());
                        t3.push(tr.last())
                    },
                }
            },
            _ => {
                assert(merged_limits(ops) == flush(st).push(op));
                lemma_run_push(src, flush(st), t2, op, tr.last());
                t2.push(tr.last())
            },
        }
    }
}

/// Every result a plan can give, its optimized plan gives too: merging
/// consecutive limits changes neither the rows, the columns nor the error.
pub proof fn lemma_optimize_keeps_result(src: DataFrame, ops: Seq<LazyOp>, r: Result<DataFrame, DataError>)
    requires
        plan_runs(src, ops, r),
    ensures
        plan_runs(src, optimized(ops), r),
{
    let tr = choose|tr: Seq<Result<DataFrame, DataError>>| #![trigger tr.len()] runs_along(src, ops, tr) && r == tr.last();
    let tr2 = lemma_merged_trace(src, ops, tr);
    assert(runs_along(src, optimized(ops), tr2) && r == tr2.last());
}

} // verus!
