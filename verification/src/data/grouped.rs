//! Aggregation specifications and group keys for grouped DataFrames

use vstd::prelude::*;

use super::value::{Value, ValueModel};
use crate::text::str_eq;
use crate::text::copy_str;

verus! {

/// Aggregation operation type
#[derive(Debug, Clone, Copy, PartialEq, Eq, Structural)]
pub enum AggOp {
    /// Sum of values
    Sum,
    /// Mean/average of values
    Mean,
    /// Minimum value
    Min,
    /// Maximum value
    Max,
    /// Count of non-null values
    Count,
    /// First value in each group
    First,
    /// Last value in each group
    Last,
    /// Standard deviation
    Std,
    /// Variance
    Var,
    /// Median value
    Median,
    /// Mode (most frequent value)
    Mode,
    /// Count of distinct values
    CountDistinct,
}

/// The name of an aggregation operation.
pub open spec fn agg_op_name(op: AggOp) -> Seq<char> {
    match op {
        AggOp::Sum => "sum"@,
        AggOp::Mean => "mean"@,
        AggOp::Min => "min"@,
        AggOp::Max => "max"@,
        AggOp::Count => "count"@,
        AggOp::First => "first"@,
        AggOp::Last => "last"@,
        AggOp::Std => "std"@,
        AggOp::Var => "var"@,
        AggOp::Median => "median"@,
        AggOp::Mode => "mode"@,
        AggOp::CountDistinct => "count_distinct"@,
    }
}

impl AggOp {
    /// Get the operation name
    pub fn name(&self) -> (r: &'static str)
        ensures
            r@ == agg_op_name(*self),
    {
        match self {
            AggOp::Sum => "sum",
            AggOp::Mean => "mean",
            AggOp::Min => "min",
            AggOp::Max => "max",
            AggOp::Count => "count",
            AggOp::First => "first",
            AggOp::Last => "last",
            AggOp::Std => "std",
            AggOp::Var => "var",
            AggOp::Median => "median",
            AggOp::Mode => "mode",
            AggOp::CountDistinct => "count_distinct",
        }
    }
}

/// Aggregation specification - describes one aggregation to perform
#[derive(Debug, Clone)]
pub struct AggSpec {
    /// The aggregation operation
    pub op: AggOp,
    /// The source column name (None for count which doesn't need a column)
    pub column: Option<String>,
    /// The output column name
    pub output_name: String,
}

impl AggSpec {
    /// The spec applies `op` to the column `column` and names the result
    /// `output`.
    pub open spec fn on_column(&self, op: AggOp, column: Seq<char>, output: Seq<char>) -> bool {
        &&& self.op == op
        &&& self.column matches Some(c) && c@ == column
        &&& self.output_name@ == output
    }

    /// Create a new aggregation spec
    pub fn new(op: AggOp, column: Option<String>, output_name: String) -> (r: Self)
        ensures
            r.op == op,
            r.column == column,
            r.output_name == output_name,
    {
        AggSpec { op, column, output_name }
    }

    /// An aggregation with `op` over `column`.
    fn over(op: AggOp, column: &str, output_name: &str) -> (r: Self)
        ensures
            r.on_column(op, column@, output_name@),
    {
        Self::new(op, Some(copy_str(column)), copy_str(output_name))
    }

    /// Create a sum aggregation
    pub fn sum(column: &str, output_name: &str) -> (r: Self)
        ensures
            r.on_column(AggOp::Sum, column@, output_name@),
    {
        Self::over(AggOp::Sum, column, output_name)
    }

    /// Create a mean aggregation
    pub fn mean(column: &str, output_name: &str) -> (r: Self)
        ensures
            r.on_column(AggOp::Mean, column@, output_name@),
    {
        Self::over(AggOp::Mean, column, output_name)
    }

    /// Create a min aggregation
    pub fn min(column: &str, output_name: &str) -> (r: Self)
        ensures
            r.on_column(AggOp::Min, column@, output_name@),
    {
        Self::over(AggOp::Min, column, output_name)
    }

    /// Create a max aggregation
    pub fn max(column: &str, output_name: &str) -> (r: Self)
        ensures
            r.on_column(AggOp::Max, column@, output_name@),
    {
        Self::over(AggOp::Max, column, output_name)
    }

    /// Create a count aggregation
    pub fn count(output_name: &str) -> (r: Self)
        ensures
            r.op == AggOp::Count,
            r.column is None,
            r.output_name@ == output_name@,
    {
        Self::new(AggOp::Count, None, copy_str(output_name))
    }

    /// Create a first aggregation
    pub fn first(column: &str, output_name: &str) -> (r: Self)
        ensures
            r.on_column(AggOp::First, column@, output_name@),
    {
        Self::over(AggOp::First, column, output_name)
    }

    /// Create a last aggregation
    pub fn last(column: &str, output_name: &str) -> (r: Self)
        ensures
            r.on_column(AggOp::Last, column@, output_name@),
    {
        Self::over(AggOp::Last, column, output_name)
    }

    /// Create a std (standard deviation) aggregation
    pub fn std_dev(column: &str, output_name: &str) -> (r: Self)
        ensures
            r.on_column(AggOp::Std, column@, output_name@),
    {
        Self::over(AggOp::Std, column, output_name)
    }

    /// Create a var (variance) aggregation
    pub fn var(column: &str, output_name: &str) -> (r: Self)
        ensures
            r.on_column(AggOp::Var, column@, output_name@),
    {
        Self::over(AggOp::Var, column, output_name)
    }

    /// Create a median aggregation
    pub fn median(column: &str, output_name: &str) -> (r: Self)
        ensures
            r.on_column(AggOp::Median, column@, output_name@),
    {
        Self::over(AggOp::Median, column, output_name)
    }

    /// Create a mode aggregation
    pub fn mode(column: &str, output_name: &str) -> (r: Self)
        ensures
            r.on_column(AggOp::Mode, column@, output_name@),
    {
        Self::over(AggOp::Mode, column, output_name)
    }

    /// Create a count_distinct aggregation
    pub fn count_distinct(column: &str, output_name: &str) -> (r: Self)
        ensures
            r.on_column(AggOp::CountDistinct, column@, output_name@),
    {
        Self::over(AggOp::CountDistinct, column, output_name)
    }
}

/// A value that can be used as a group key
#[derive(Debug, Clone, PartialEq, Eq, Hash)]
pub enum GroupKey {
    Null,
    Bool(bool),
    Int(i64),
    String(String),
}

/// The value a group key stands for.
pub open spec fn key_value(k: GroupKey) -> Value {
    match k {
        GroupKey::Null => Value::Null,
        GroupKey::Bool(b) => Value::Bool(b),
        GroupKey::Int(i) => Value::Int(i),
        GroupKey::String(s) => Value::String(s),
    }
}

/// The group key of a value.
pub open spec fn value_key(v: Value) -> GroupKey {
    match v {
        Value::Null => GroupKey::Null,
        Value::Bool(b) => GroupKey::Bool(b),
        Value::Int(i) => GroupKey::Int(i),
        Value::String(s) => GroupKey::String(s),
    }
}

impl GroupKey {
    /// Convert to a Stratum Value
    pub fn to_value(&self) -> (v: Value)
        ensures
            v == key_value(*self),
    {
        match self {
            GroupKey::Null => Value::Null,
            GroupKey::Bool(b) => Value::Bool(*b),
            GroupKey::Int(i) => Value::Int(*i),
            GroupKey::String(s) => Value::String(s.clone()),
        }
    }
}

/// Convert a Value to a GroupKey for hashing
pub fn value_to_group_key(value: &Value) -> (k: GroupKey)
    ensures
        k == value_key(*value),
{
    match value {
        Value::Null => GroupKey::Null,
        Value::Bool(b) => GroupKey::Bool(*b),
        Value::Int(i) => GroupKey::Int(*i),
        Value::String(s) => GroupKey::String(s.clone()),
    }
}

/// A group key turned into a value and back is the same key, and a value
/// turned into a key and back is the same value.
pub proof fn lemma_group_key_round_trip(k: GroupKey, v: Value)
    ensures
        value_key(key_value(k)) == k,
        key_value(value_key(v)) == v,
{
}

// ---------------------------------------------------------------------------
// Grouping rows
// ---------------------------------------------------------------------------

/// The content of a group key.
pub open spec fn group_key_view(k: GroupKey) -> ValueModel {
    match k {
        GroupKey::Null => ValueModel::Null,
        GroupKey::Bool(b) => ValueModel::Bool(b),
        GroupKey::Int(i) => ValueModel::Int(i),
        GroupKey::String(s) => ValueModel::Str(s@),
    }
}

/// The contents of a compound group key.
pub open spec fn keys_view(ks: Seq<GroupKey>) -> Seq<ValueModel> {
    ks.map_values(|k: GroupKey| group_key_view(k))
}

/// The key of row `i`: its value in each key column, in order.
pub open spec fn row_key(cols: Seq<Vec<Value>>, i: int) -> Seq<ValueModel> {
    cols.map_values(|c: Vec<Value>| c@[i]@)
}

/// Position of the group with key `k`, or -1.
pub open spec fn group_pos(gs: Seq<(Seq<ValueModel>, Seq<usize>)>, k: Seq<ValueModel>) -> int
    decreases gs.len(),
{
    if gs.len() == 0 {
        -1
    } else if group_pos(gs.drop_last(), k) >= 0 {
        group_pos(gs.drop_last(), k)
    } else if gs.last().0 == k {
        gs.len() - 1
    } else {
        -1
    }
}

/// The groups of the first `n` rows: one group per distinct key, in the
/// order in which the keys first occur, each with its rows in order.
pub open spec fn groups_of(cols: Seq<Vec<Value>>, n: nat) -> Seq<(Seq<ValueModel>, Seq<usize>)>
    decreases n,
{
    if n == 0 {
        Seq::empty()
    } else {
        let gs = groups_of(cols, (n - 1) as nat);
        let k = row_key(cols, n - 1);
        let p = group_pos(gs, k);
        if p >= 0 {
            gs.update(p, (gs[p].0, gs[p].1.push((n - 1) as usize)))
        } else {
            gs.push((k, seq![(n - 1) as usize]))
        }
    }
}

/// The contents of a list of groups.
pub open spec fn groups_view(gs: Seq<(Vec<GroupKey>, Vec<usize>)>) -> Seq<(Seq<ValueModel>, Seq<usize>)> {
    gs.map_values(|g: (Vec<GroupKey>, Vec<usize>)| (keys_view(g.0@), g.1@))
}

/// Whether two group keys are the same.
fn same_group_key(a: &GroupKey, b: &GroupKey) -> (r: bool)
    ensures
        r == (group_key_view(*a) == group_key_view(*b)),
{
    match (a, b) {
        (GroupKey::Null, GroupKey::Null) => true,
        (GroupKey::Bool(x), GroupKey::Bool(y)) => *x == *y,
        (GroupKey::Int(x), GroupKey::Int(y)) => *x == *y,
        (GroupKey::String(x), GroupKey::String(y)) => str_eq(x.as_str(), y.as_str()),
        _ => false,
    }
}

/// Whether two compound keys are the same.
fn same_keys(a: &Vec<GroupKey>, b: &Vec<GroupKey>) -> (r: bool)
    ensures
        r == (keys_view(a@) == keys_view(b@)),
{
    if a.len() != b.len() {
        return false;
    }
    let mut i: usize = 0;
    while i < a.len()
        invariant
            i <= a@.len(),
            a@.len() == b@.len(),
            forall|k: int| 0 <= k < i ==> group_key_view(#[trigger] a@[k]) == group_key_view(b@[k]),
        decreases a.len() - i,
    {
        if !same_group_key(&a[i], &b[i]) {
            assert(keys_view(a@)[i as int] != keys_view(b@)[i as int]);
            return false;
        }
        i = i + 1;
    }
    assert(keys_view(a@) =~= keys_view(b@));
    true
}

/// Group the rows of a table by the values of its key columns: one group per
/// distinct compound key, in the order in which the keys first occur, each
/// with the rows that have its key, in order.
pub fn group_rows(key_columns: &Vec<Vec<Value>>, num_rows: usize) -> (r: Vec<(Vec<GroupKey>, Vec<usize>)>)
    requires
        forall|c: int| 0 <= c < key_columns@.len() ==> (#[trigger] key_columns@[c])@.len() == num_rows,
    ensures
        groups_view(r@) == groups_of(key_columns@, num_rows as nat),
{
    let ghost cols = key_columns@;
    let mut groups: Vec<(Vec<GroupKey>, Vec<usize>)> = Vec::new();
    let mut i: usize = 0;
    while i < num_rows
        invariant
            i <= num_rows,
            cols == key_columns@,
            forall|c: int| 0 <= c < cols.len() ==> (#[trigger] cols[c])@.len() == num_rows,
            groups_view(groups@) == groups_of(cols, i as nat),
        decreases num_rows - i,
    {
        let mut key: Vec<GroupKey> = Vec::new();
        let mut c: usize = 0;
        while c < key_columns.len()
            invariant
                c <= cols.len(),
                i < num_rows,
                cols == key_columns@,
                forall|c: int| 0 <= c < cols.len() ==> (#[trigger] cols[c])@.len() == num_rows,
                keys_view(key@) == row_key(cols.take(c as int), i as int),
            decreases key_columns.len() - c,
        {
            let k = value_to_group_key(&key_columns[c][i]);
            let ghost before = key@;
            key.push(k);
            assert(cols.take(c + 1) =~= cols.take(c as int).push(cols[c as int]));
            assert(keys_view(key@) =~= keys_view(before).push(group_key_view(k)));
            assert(group_key_view(k) == cols[c as int]@[i as int]@);
            assert(row_key(cols.take(c + 1), i as int) =~= row_key(cols.take(c as int), i as int).push(
                cols[c as int]@[i as int]@,
            ));
            c = c + 1;
        }
        assert(cols.take(cols.len() as int) =~= cols);
        let ghost gs = groups_of(cols, i as nat);
        let ghost k = row_key(cols, i as int);
        let mut p: usize = 0;
        let mut found = false;
        while p < groups.len()
            invariant_except_break
                !found,
                group_pos(gs.take(p as int), k) < 0,
            invariant
                p <= groups@.len(),
                groups_view(groups@) == gs,
                keys_view(key@) == k,
            ensures
                found ==> p < groups@.len() && group_pos(gs, k) == p,
                !found ==> group_pos(gs.take(p as int), k) < 0 && p == groups@.len(),
            decreases groups.len() - p,
        {
            assert(gs.take(p + 1).drop_last() =~= gs.take(p as int));
            if same_keys(&groups[p].0, &key) {
                found = true;
                proof {
                    assert(gs[p as int].0 == k);
                    assert(gs.take(p + 1).last() == gs[p as int]);
                    lemma_group_pos_prefix(gs, k, (p + 1) as int);
                }
                break;
            }
            p = p + 1;
        }
        if found {
            let ghost old_groups = groups@;
            groups[p].1.push(i);
            assert(groups_view(groups@) =~= gs.update(p as int, (gs[p as int].0, gs[p as int].1.push(i))));
        } else {
            assert(gs.take(gs.len() as int) =~= gs);
            let mut rows: Vec<usize> = Vec::new();
            rows.push(i);
            assert(rows@ =~= seq![i]);
            let ghost before = groups@;
            groups.push((key, rows));
            assert(groups_view(groups@) =~= groups_view(before).push((keys_view(key@), rows@)));
            assert(groups_view(groups@) =~= gs.push((k, seq![i])));
        }
        i = i + 1;
    }
    groups
}

/// A group found in a prefix of the groups is the group found in all of them.
proof fn lemma_group_pos_prefix(gs: Seq<(Seq<ValueModel>, Seq<usize>)>, k: Seq<ValueModel>, m: int)
    requires
        0 <= m <= gs.len(),
        group_pos(gs.take(m), k) >= 0,
    ensures
        group_pos(gs, k) == group_pos(gs.take(m), k),
    decreases gs.len() - m,
{
    if m < gs.len() {
        assert(gs.take(m + 1).drop_last() =~= gs.take(m));
        lemma_group_pos_prefix(gs, k, m + 1);
    } else {
        assert(gs.take(m) =~= gs);
    }
}

// ---------------------------------------------------------------------------
// What grouping guarantees
// ---------------------------------------------------------------------------

/// Row `r` is in group `g`.
pub open spec fn in_group(gs: Seq<(Seq<ValueModel>, Seq<usize>)>, g: int, r: int) -> bool {
    gs[g].1.contains(r as usize)
}

/// Row `r` is in some group.
pub open spec fn grouped(gs: Seq<(Seq<ValueModel>, Seq<usize>)>, r: int) -> bool {
    exists|g: int| 0 <= g < gs.len() && #[trigger] in_group(gs, g, r)
}

/// `group_pos` finds a group with the key, or there is none.
pub(crate) proof fn lemma_group_pos(gs: Seq<(Seq<ValueModel>, Seq<usize>)>, k: Seq<ValueModel>)
    ensures
        -1 <= group_pos(gs, k) < gs.len(),
        group_pos(gs, k) >= 0 ==> gs[group_pos(gs, k)].0 == k,
        group_pos(gs, k) < 0 ==> forall|g: int| 0 <= g < gs.len() ==> (#[trigger] gs[g]).0 != k,
    decreases gs.len(),
{
    if gs.len() > 0 {
        lemma_group_pos(gs.drop_last(), k);
        if group_pos(gs, k) < 0 {
            assert forall|g: int| 0 <= g < gs.len() implies (#[trigger] gs[g]).0 != k by {
                if g < gs.len() - 1 {
                    assert(gs[g] == gs.drop_last()[g]);
                }
            }
        }
    }
}

/// Grouping the first `n` rows gives groups with distinct keys, each holding
/// only rows below `n` that have its key, and every row below `n` is in one
/// of them.
pub proof fn lemma_groups_partition(cols: Seq<Vec<Value>>, n: nat)
    requires
        n <= usize::MAX,
    ensures
        forall|g: int, x: int|
            0 <= g < groups_of(cols, n).len() && 0 <= x < groups_of(cols, n)[g].1.len() ==> (
            #[trigger] groups_of(cols, n)[g].1[x] as nat) < n && row_key(cols, groups_of(cols, n)[g].1[x] as int)
                == groups_of(cols, n)[g].0,
        forall|g1: int, g2: int|
            0 <= g1 < g2 < groups_of(cols, n).len() ==> (#[trigger] groups_of(cols, n)[g1]).0 != (
            #[trigger] groups_of(cols, n)[g2]).0,
        forall|r: int| 0 <= r < n ==> #[trigger] grouped(groups_of(cols, n), r),
    decreases n,
{
    if n > 0 {
        let gs = groups_of(cols, (n - 1) as nat);
        let k = row_key(cols, n - 1);
        let p = group_pos(gs, k);
        let ng = groups_of(cols, n);
        let row = (n - 1) as usize;
        lemma_groups_partition(cols, (n - 1) as nat);
        lemma_group_pos(gs, k);
        assert forall|g: int, x: int| 0 <= g < ng.len() && 0 <= x < ng[g].1.len() implies (#[trigger] ng[g].1[x] as nat)
            < n && row_key(cols, ng[g].1[x] as int) == ng[g].0 by {
            if g < gs.len() && !(p >= 0 && g == p) {
                assert(ng[g] == gs[g]);
            } else if p >= 0 && g == p {
                if x < gs[g].1.len() {
                    assert(ng[g].1[x] == gs[g].1[x]);
                }
            }
        }
        assert forall|g1: int, g2: int| 0 <= g1 < g2 < ng.len() implies (#[trigger] ng[g1]).0 != (#[trigger] ng[g2]).0 by {
            if g2 < gs.len() {
                assert(ng[g1].0 == gs[g1].0);
                assert(ng[g2].0 == gs[g2].0);
            } else {
                assert(ng[g1].0 == gs[g1].0);
            }
        }
        assert forall|r: int| 0 <= r < n implies #[trigger] grouped(ng, r) by {
            if r < n - 1 {
                assert(grouped(gs, r));
                let g = choose|g: int| 0 <= g < gs.len() && #[trigger] in_group(gs, g, r);
                let x = choose|x: int| 0 <= x < gs[g].1.len() && gs[g].1[x] == r as usize;
                if p >= 0 && g == p {
                    assert(ng[g].1[x] == r as usize);
                } else {
                    assert(ng[g] == gs[g]);
                }
                assert(in_group(ng, g, r));
            } else if p >= 0 {
                assert(ng[p].1[gs[p].1.len() as int] == row);
                assert(in_group(ng, p, r));
            } else {
                assert(ng[gs.len() as int].1[0] == row);
                assert(in_group(ng, gs.len() as int, r));
            }
        }
    }
}

} // verus!
