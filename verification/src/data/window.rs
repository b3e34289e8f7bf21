//! Window functions evaluated over the rows of a table of named columns.

use vstd::prelude::*;

use super::error::DataError;
use super::grouped::row_key;
use super::lazy::{LazyFrame, WindowFunc, WindowSpec};
use super::predicate::{column_pos, find_column, table_rows};
use super::value::{copy_value, same_value, value_views, Value, ValueModel};

verus! {

impl WindowFunc {
    /// Whether the function's values are floating-point numbers: running
    /// sums, means, minima and maxima, and percent ranks. This library does
    /// not compute those.
    pub open spec fn yields_floats(self) -> bool {
        self is CumSum || self is CumMean || self is CumMin || self is CumMax || self is PercentRank
    }

    /// Whether the function reads the values of its column.
    pub open spec fn reads_column(self) -> bool {
        self is Lead || self is Lag || self is First || self is Last || self.yields_floats()
    }
}

/// How many of the first `i` rows have the key `k` in the partition columns.
pub open spec fn rows_with_key(parts: Seq<Vec<Value>>, k: Seq<ValueModel>, i: nat) -> nat
    decreases i,
{
    if i == 0 {
        0
    } else if row_key(parts, i - 1) == k {
        rows_with_key(parts, k, (i - 1) as nat) + 1
    } else {
        rows_with_key(parts, k, (i - 1) as nat)
    }
}

/// The value a window function gives row `i` of a table of `n` rows, where
/// `col` holds the values of the column it reads and `parts` its partition
/// columns. A row number counts the rows up to this one in the same
/// partition; a rank, dense rank or running count is the row's place in the
/// table; `Lead` and `Lag` look the offset ahead or back, null past the
/// ends; `First` and `Last` repeat the first or last value; `Ntile(t)` is
/// `i * t / n + 1`.
pub open spec fn window_at(func: WindowFunc, col: Seq<ValueModel>, parts: Seq<Vec<Value>>, n: nat, i: int) -> ValueModel {
    match func {
        WindowFunc::RowNumber => ValueModel::Int((rows_with_key(parts, row_key(parts, i), i as nat) + 1) as i64),
        WindowFunc::Rank | WindowFunc::DenseRank | WindowFunc::CumCount => ValueModel::Int((i + 1) as i64),
        WindowFunc::Lead(o) => if i + o < n {
            col[i + o]
        } else {
            ValueModel::Null
        },
        WindowFunc::Lag(o) => if i >= o {
            col[i - o]
        } else {
            ValueModel::Null
        },
        WindowFunc::First => col[0],
        WindowFunc::Last => col[n - 1],
        WindowFunc::Ntile(t) => ValueModel::Int((i * t / (n as int) + 1) as i64),
        _ => ValueModel::Null,
    }
}

/// The columns with the given names, in order, or the first name the table
/// lacks.
pub open spec fn columns_named(cols: Seq<(String, Vec<Value>)>, names: Seq<String>) -> Result<
    Seq<Vec<Value>>,
    Seq<char>,
>
    decreases names.len(),
{
    if names.len() == 0 {
        Ok(Seq::empty())
    } else {
        match columns_named(cols, names.drop_last()) {
            Err(e) => Err(e),
            Ok(ps) => {
                let k = column_pos(cols, names.last()@);
                if k < 0 {
                    Err(names.last()@)
                } else {
                    Ok(ps.push(cols[k].1))
                }
            },
        }
    }
}

/// What a window function reads from a table of `n` rows: the values of its
/// column, and for a row number its partition columns; or the name of the
/// first column it looks for that the table lacks. Nothing is read from a
/// table without rows.
pub open spec fn window_inputs(cols: Seq<(String, Vec<Value>)>, n: nat, spec: WindowSpec) -> Result<
    (Seq<ValueModel>, Seq<Vec<Value>>),
    Seq<char>,
> {
    if n == 0 {
        Ok((Seq::empty(), Seq::empty()))
    } else if spec.func.reads_column() {
        let k = column_pos(cols, spec.column@);
        if k < 0 {
            Err(spec.column@)
        } else {
            Ok((value_views(cols[k].1@), Seq::empty()))
        }
    } else if spec.func is RowNumber {
        match columns_named(cols, spec.partition_by@) {
            Err(e) => Err(e),
            Ok(ps) => Ok((Seq::empty(), ps)),
        }
    } else {
        Ok((Seq::empty(), Seq::empty()))
    }
}

/// The positions a window function computes without overflowing a `usize`
/// on a table of `n` rows.
pub open spec fn window_fits(func: WindowFunc, n: nat) -> bool {
    match func {
        WindowFunc::Lead(o) => n == 0 || n - 1 + o <= usize::MAX,
        WindowFunc::Ntile(t) => n == 0 || (n - 1) * t <= usize::MAX,
        _ => true,
    }
}

/// The partition columns, given by position, all have `n` rows.
pub open spec fn parts_at(columns: Seq<(String, Vec<Value>)>, ks: Seq<usize>, parts: Seq<Vec<Value>>, n: nat) -> bool {
    &&& ks.len() == parts.len()
    &&& forall|j: int|
        0 <= j < ks.len() ==> (#[trigger] ks[j]) < columns.len() && columns[ks[j] as int].1 == parts[j]
    &&& forall|j: int| 0 <= j < parts.len() ==> (#[trigger] parts[j])@.len() == n
}

/// Whether rows `a` and `b` have the same key in the partition columns.
fn same_row_key(columns: &Vec<(String, Vec<Value>)>, ks: &Vec<usize>, a: usize, b: usize, Ghost(parts): Ghost<Seq<Vec<Value>>>, Ghost(n): Ghost<nat>) -> (r: bool)
    requires
        parts_at(columns@, ks@, parts, n),
        a < n,
        b < n,
    ensures
        r == (row_key(parts, a as int) == row_key(parts, b as int)),
{
    let mut j: usize = 0;
    while j < ks.len()
        invariant
            j <= ks@.len(),
            parts_at(columns@, ks@, parts, n),
            a < n,
            b < n,
            forall|m: int| 0 <= m < j ==> (#[trigger] parts[m])@[a as int]@ == parts[m]@[b as int]@,
        decreases ks.len() - j,
    {
        let col = &columns[ks[j]].1;
        assert(col@ == parts[j as int]@);
        if !same_value(&col[a], &col[b]) {
            assert(row_key(parts, a as int)[j as int] != row_key(parts, b as int)[j as int]);
            return false;
        }
        j = j + 1;
    }
    assert(row_key(parts, a as int) =~= row_key(parts, b as int));
    true
}

/// The row numbers of the rows within their partitions.
fn partition_row_numbers(columns: &Vec<(String, Vec<Value>)>, ks: &Vec<usize>, num_rows: usize, Ghost(parts): Ghost<Seq<Vec<Value>>>) -> (r: Vec<Value>)
    requires
        parts_at(columns@, ks@, parts, num_rows as nat),
    ensures
        r@.len() == num_rows,
        forall|i: int|
            0 <= i < num_rows ==> (#[trigger] r@[i])@ == ValueModel::Int(
                (rows_with_key(parts, row_key(parts, i), i as nat) + 1) as i64,
            ),
{
    // One representative row per partition seen so far, and how many rows
    // of that partition have been numbered.
    let mut reps: Vec<usize> = Vec::new();
    let mut counts: Vec<usize> = Vec::new();
    let mut out: Vec<Value> = Vec::new();
    let mut i: usize = 0;
    while i < num_rows
        invariant
            i <= num_rows,
            parts_at(columns@, ks@, parts, num_rows as nat),
            reps@.len() == counts@.len(),
            out@.len() == i,
            forall|g: int| 0 <= g < reps@.len() ==> (#[trigger] reps@[g]) < i,
            forall|g: int|
                0 <= g < reps@.len() ==> (#[trigger] counts@[g]) == rows_with_key(parts, row_key(parts, reps@[g] as int), i as nat)
                    && counts@[g] <= i,
            forall|g1: int, g2: int|
                0 <= g1 < g2 < reps@.len() ==> row_key(parts, (#[trigger] reps@[g1]) as int) != row_key(
                    parts,
                    (#[trigger] reps@[g2]) as int,
                ),
            forall|k: Seq<ValueModel>|
                (forall|g: int| 0 <= g < reps@.len() ==> row_key(parts, (#[trigger] reps@[g]) as int) != k) ==> #[trigger] rows_with_key(parts, k, i as nat) == 0,
            forall|m: int|
                0 <= m < i ==> (#[trigger] out@[m])@ == ValueModel::Int(
                    (rows_with_key(parts, row_key(parts, m), m as nat) + 1) as i64,
                ),
        decreases num_rows - i,
    {
        let ghost key = row_key(parts, i as int);
        let ghost reps_before = reps@;
        let ghost next: nat = (i + 1) as nat;
        let mut g: usize = 0;
        let mut found: bool = false;
        while g < reps.len()
            invariant_except_break
                !found,
            invariant
                g <= reps@.len(),
                i < num_rows,
                parts_at(columns@, ks@, parts, num_rows as nat),
                forall|h: int| 0 <= h < reps@.len() ==> (#[trigger] reps@[h]) < i,
                key == row_key(parts, i as int),
                forall|h: int| 0 <= h < g ==> row_key(parts, (#[trigger] reps@[h]) as int) != key,
            ensures
                found ==> g < reps@.len() && row_key(parts, reps@[g as int] as int) == key,
                !found ==> forall|h: int| 0 <= h < reps@.len() ==> row_key(parts, (#[trigger] reps@[h]) as int) != key,
            decreases reps.len() - g,
        {
            if same_row_key(columns, ks, reps[g], i, Ghost(parts), Ghost(num_rows as nat)) {
                found = true;
                break;
            }
            g = g + 1;
        }
        if found {
            let c = counts[g] + 1;
            out.push(Value::Int(c as i64));
            counts.set(g, c);
            proof {
                assert forall|h: int| 0 <= h < reps@.len() && h != g implies row_key(parts, reps@[h] as int) != key by {
                    if h < g {
                        assert(row_key(parts, reps@[h] as int) != row_key(parts, reps@[g as int] as int));
                    } else {
                        assert(row_key(parts, reps@[g as int] as int) != row_key(parts, reps@[h] as int));
                    }
                }
                assert forall|k: Seq<ValueModel>|
                    (forall|h: int| 0 <= h < reps@.len() ==> row_key(parts, (#[trigger] reps@[h]) as int) != k) implies #[trigger] rows_with_key(
                    parts,
                    k,
                    next,
                ) == 0 by {
                    assert(row_key(parts, reps@[g as int] as int) != k);
                    assert(row_key(parts, i as int) != k);
                    assert(rows_with_key(parts, k, i as nat) == 0);
                    assert(rows_with_key(parts, k, next) == rows_with_key(parts, k, i as nat));
                }
            }
        } else {
            out.push(Value::Int(1));
            reps.push(i);
            counts.push(1);
            proof {
                assert(rows_with_key(parts, key, i as nat) == 0);
                assert forall|k: Seq<ValueModel>|
                    (forall|h: int| 0 <= h < reps@.len() ==> row_key(parts, (#[trigger] reps@[h]) as int) != k) implies #[trigger] rows_with_key(
                    parts,
                    k,
                    next,
                ) == 0 by {
                    assert(reps@[reps@.len() - 1] == i);
                    assert(row_key(parts, reps@[reps@.len() - 1] as int) != k);
                    assert forall|h: int| 0 <= h < reps_before.len() implies row_key(parts, (#[trigger] reps_before[h]) as int) != k by {
                        assert(reps@[h] == reps_before[h]);
                    }
                    assert(row_key(parts, i as int) != k);
                    assert(rows_with_key(parts, k, i as nat) == 0);
                    assert(rows_with_key(parts, k, next) == rows_with_key(parts, k, i as nat));
                }
            }
        }
        i = i + 1;
        assert(next == i as nat);
    }
    out
}

/// The positions of the columns with the given names.
fn partition_positions(columns: &Vec<(String, Vec<Value>)>, names: &Vec<String>) -> (r: Result<Vec<usize>, DataError>)
    ensures
        match columns_named(columns@, names@) {
            Err(name) => r matches Err(DataError::ColumnNotFound(c)) && c@ == name,
            Ok(ps) => r matches Ok(ks) && ks@.len() == ps.len() && forall|j: int|
                0 <= j < ks@.len() ==> (#[trigger] ks@[j]) < columns@.len() && columns@[ks@[j] as int].1 == ps[j],
        },
{
    let mut ks: Vec<usize> = Vec::new();
    let mut i: usize = 0;
    while i < names.len()
        invariant
            i <= names@.len(),
            columns_named(columns@, names@.take(i as int)) matches Ok(ps) && ks@.len() == ps.len() && forall|j: int|
                0 <= j < ks@.len() ==> (#[trigger] ks@[j]) < columns@.len() && columns@[ks@[j] as int].1 == ps[j],
        decreases names.len() - i,
    {
        assert(names@.take(i + 1).drop_last() =~= names@.take(i as int));
        assert(names@.take(i + 1).last() == names@[i as int]);
        match find_column(columns, &names[i]) {
            None => {
                proof {
                    lemma_columns_named_prefix_err(columns@, names@, (i + 1) as int);
                }
                return Err(DataError::ColumnNotFound(names[i].clone()));
            },
            Some(k) => {
                ks.push(k);
            },
        }
        i = i + 1;
    }
    assert(names@.take(names@.len() as int) =~= names@);
    Ok(ks)
}

/// A name missing among the first `k` is the first name missing among all.
proof fn lemma_columns_named_prefix_err(cols: Seq<(String, Vec<Value>)>, names: Seq<String>, k: int)
    requires
        0 <= k <= names.len(),
        columns_named(cols, names.take(k)) is Err,
    ensures
        columns_named(cols, names) == columns_named(cols, names.take(k)),
    decreases names.len() - k,
{
    if k < names.len() {
        assert(names.take(k + 1).drop_last() =~= names.take(k));
        lemma_columns_named_prefix_err(cols, names, k + 1);
    } else {
        assert(names.take(k) =~= names);
    }
}

/// Without partition columns every row is in the one partition.
proof fn lemma_rows_without_partitions(i: nat)
    ensures
        rows_with_key(Seq::empty(), row_key(Seq::empty(), i as int), i) == i,
    decreases i,
{
    if i > 0 {
        let e: Seq<Vec<Value>> = Seq::empty();
        assert(row_key(e, i as int) =~= row_key(e, i - 1));
        lemma_rows_without_partitions((i - 1) as nat);
    }
}

/// The places of the rows, counted from one.
fn row_places(num_rows: usize) -> (r: Vec<Value>)
    ensures
        r@.len() == num_rows,
        forall|i: int| 0 <= i < num_rows ==> (#[trigger] r@[i])@ == ValueModel::Int((i + 1) as i64),
{
    let mut out: Vec<Value> = Vec::new();
    let mut i: usize = 0;
    while i < num_rows
        invariant
            i <= num_rows,
            out@.len() == i,
            forall|m: int| 0 <= m < i ==> (#[trigger] out@[m])@ == ValueModel::Int((m + 1) as i64),
        decreases num_rows - i,
    {
        out.push(Value::Int((i + 1) as i64));
        i = i + 1;
    }
    out
}

impl LazyFrame {
    /// The values a window function gives the rows of a table of
    /// `num_rows` rows, given as named columns; see [`window_at`]. A function
    /// that reads a column the table lacks, or a row number partitioned by
    /// such a column, fails with `ColumnNotFound`; a table without rows
    /// gives no values and reads nothing.
    pub fn window_values(columns: &Vec<(String, Vec<Value>)>, num_rows: usize, spec: &WindowSpec) -> (r: Result<Vec<Value>, DataError>)
        requires
            table_rows(columns@, num_rows as nat),
            !spec.func.yields_floats(),
            window_fits(spec.func, num_rows as nat),
        ensures
            match window_inputs(columns@, num_rows as nat, *spec) {
                Err(name) => r matches Err(DataError::ColumnNotFound(c)) && c@ == name,
                Ok((col, parts)) => r matches Ok(v) && v@.len() == num_rows && forall|i: int|
                    0 <= i < num_rows ==> (#[trigger] v@[i])@ == window_at(spec.func, col, parts, num_rows as nat, i),
            },
    {
        if num_rows == 0 {
            return Ok(Vec::new());
        }
        match spec.func {
            WindowFunc::RowNumber => {
                if spec.partition_by.len() == 0 {
                    let out = row_places(num_rows);
                    proof {
                        assert(spec.partition_by@ =~= Seq::<String>::empty());
                        assert forall|i: int| 0 <= i < num_rows implies (#[trigger] out@[i])@ == window_at(
                            spec.func,
                            Seq::empty(),
                            Seq::empty(),
                            num_rows as nat,
                            i,
                        ) by {
                            lemma_rows_without_partitions(i as nat);
                        }
                    }
                    Ok(out)
                } else {
                    let ks = partition_positions(columns, &spec.partition_by)?;
                    let ghost parts = columns_named(columns@, spec.partition_by@)->Ok_0;
                    assert forall|j: int| 0 <= j < parts.len() implies (#[trigger] parts[j])@.len() == num_rows by {
                        assert(columns@[ks@[j] as int].1@.len() == num_rows);
                    }
                    Ok(partition_row_numbers(columns, &ks, num_rows, Ghost(parts)))
                }
            },
            WindowFunc::Rank | WindowFunc::DenseRank | WindowFunc::CumCount => Ok(row_places(num_rows)),
            WindowFunc::Ntile(t) => {
                let mut out: Vec<Value> = Vec::new();
                let mut i: usize = 0;
                while i < num_rows
                    invariant
                        0 < num_rows,
                        i <= num_rows,
                        (num_rows - 1) * t <= usize::MAX,
                        spec.func == WindowFunc::Ntile(t),
                        out@.len() == i,
                        forall|m: int|
                            0 <= m < i ==> (#[trigger] out@[m])@ == window_at(spec.func, Seq::empty(), Seq::empty(), num_rows as nat, m),
                    decreases num_rows - i,
                {
                    proof {
                        vstd::arithmetic::mul::lemma_mul_inequality(i as int, num_rows - 1, t as int);
                        let x = i * t;
                        if num_rows == 1 {
                            assert(x == 0);
                        } else {
                            vstd::arithmetic::div_mod::lemma_div_is_ordered_by_denominator(x, 2, num_rows as int);
                            vstd::arithmetic::div_mod::lemma_div_is_ordered(x, usize::MAX as int, 2);
                        }
                    }
                    let tile = i * t / num_rows + 1;
                    out.push(Value::Int(tile as i64));
                    i = i + 1;
                }
                Ok(out)
            },
            _ => {
                let k = match find_column(columns, &spec.column) {
                    None => {
                        return Err(DataError::ColumnNotFound(spec.column.clone()));
                    },
                    Some(k) => k,
                };
                let col = &columns[k].1;
                assert(col@.len() == num_rows) by {
                    assert(columns@[k as int].1@.len() == num_rows);
                }
                let ghost cv = value_views(col@);
                let mut out: Vec<Value> = Vec::new();
                let mut i: usize = 0;
                while i < num_rows
                    invariant
                        0 < num_rows,
                        i <= num_rows,
                        col@.len() == num_rows,
                        cv == value_views(col@),
                        spec.func.reads_column(),
                        !spec.func.yields_floats(),
                        window_fits(spec.func, num_rows as nat),
                        out@.len() == i,
                        forall|m: int|
                            0 <= m < i ==> (#[trigger] out@[m])@ == window_at(spec.func, cv, Seq::empty(), num_rows as nat, m),
                    decreases num_rows - i,
                {
                    let v = match spec.func {
                        WindowFunc::Lead(o) => {
                            if i + o < num_rows {
                                copy_value(&col[i + o])
                            } else {
                                Value::Null
                            }
                        },
                        WindowFunc::Lag(o) => {
                            if i >= o {
                                copy_value(&col[i - o])
                            } else {
                                Value::Null
                            }
                        },
                        WindowFunc::First => copy_value(&col[0]),
                        _ => copy_value(&col[num_rows - 1]),
                    };
                    out.push(v);
                    i = i + 1;
                }
                Ok(out)
            },
        }
    }
}

} // verus!
