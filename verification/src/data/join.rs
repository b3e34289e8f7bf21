//! Join specifications for DataFrame operations

use vstd::prelude::*;

use super::value::{same_value, value_views, Value, ValueModel};
use crate::text::copy_str;

verus! {

/// Type of join operation
#[derive(Debug, Clone, Copy, PartialEq, Eq, Structural)]
pub enum JoinType {
    /// Inner join - only matching rows from both DataFrames
    Inner,
    /// Left join - all rows from left, matching from right
    Left,
    /// Right join - matching from left, all rows from right
    Right,
    /// Outer join - all rows from both DataFrames
    Outer,
}

/// The name of a join type.
pub open spec fn join_type_name(t: JoinType) -> Seq<char> {
    match t {
        JoinType::Inner => "inner"@,
        JoinType::Left => "left"@,
        JoinType::Right => "right"@,
        JoinType::Outer => "outer"@,
    }
}

impl JoinType {
    /// Get the join type name
    pub fn name(&self) -> (r: &'static str)
        ensures
            r@ == join_type_name(*self),
    {
        match self {
            JoinType::Inner => "inner",
            JoinType::Left => "left",
            JoinType::Right => "right",
            JoinType::Outer => "outer",
        }
    }
}

/// Join specification - describes how to join two DataFrames
#[derive(Debug, Clone)]
pub struct JoinSpec {
    /// The type of join to perform
    pub join_type: JoinType,
    /// The column name in the left DataFrame
    pub left_column: String,
    /// The column name in the right DataFrame
    pub right_column: String,
}

impl JoinSpec {
    /// The spec joins with `join_type` on `left` in the left frame and
    /// `right` in the right frame.
    pub open spec fn describes(&self, join_type: JoinType, left: Seq<char>, right: Seq<char>) -> bool {
        &&& self.join_type == join_type
        &&& self.left_column@ == left
        &&& self.right_column@ == right
    }

    /// A join of the given type on the given columns.
    fn build(join_type: JoinType, left: &str, right: &str) -> (r: Self)
        ensures
            r.describes(join_type, left@, right@),
    {
        JoinSpec { join_type, left_column: copy_str(left), right_column: copy_str(right) }
    }

    /// Create a new join spec with the same column name in both DataFrames
    pub fn on(column: &str) -> (r: Self)
        ensures
            r.describes(JoinType::Inner, column@, column@),
    {
        Self::build(JoinType::Inner, column, column)
    }

    /// Create a new join spec with different column names
    pub fn cols(left: &str, right: &str) -> (r: Self)
        ensures
            r.describes(JoinType::Inner, left@, right@),
    {
        Self::build(JoinType::Inner, left, right)
    }

    /// Create an inner join on the same column name
    pub fn inner(column: &str) -> (r: Self)
        ensures
            r.describes(JoinType::Inner, column@, column@),
    {
        Self::build(JoinType::Inner, column, column)
    }

    /// Create an inner join with different column names
    pub fn inner_cols(left: &str, right: &str) -> (r: Self)
        ensures
            r.describes(JoinType::Inner, left@, right@),
    {
        Self::build(JoinType::Inner, left, right)
    }

    /// Create a left join on the same column name
    pub fn left(column: &str) -> (r: Self)
        ensures
            r.describes(JoinType::Left, column@, column@),
    {
        Self::build(JoinType::Left, column, column)
    }

    /// Create a left join with different column names
    pub fn left_cols(left: &str, right: &str) -> (r: Self)
        ensures
            r.describes(JoinType::Left, left@, right@),
    {
        Self::build(JoinType::Left, left, right)
    }

    /// Create a right join on the same column name
    pub fn right(column: &str) -> (r: Self)
        ensures
            r.describes(JoinType::Right, column@, column@),
    {
        Self::build(JoinType::Right, column, column)
    }

    /// Create a right join with different column names
    pub fn right_cols(left: &str, right: &str) -> (r: Self)
        ensures
            r.describes(JoinType::Right, left@, right@),
    {
        Self::build(JoinType::Right, left, right)
    }

    /// Create an outer join on the same column name
    pub fn outer(column: &str) -> (r: Self)
        ensures
            r.describes(JoinType::Outer, column@, column@),
    {
        Self::build(JoinType::Outer, column, column)
    }

    /// Create an outer join with different column names
    pub fn outer_cols(left: &str, right: &str) -> (r: Self)
        ensures
            r.describes(JoinType::Outer, left@, right@),
    {
        Self::build(JoinType::Outer, left, right)
    }
}

// ---------------------------------------------------------------------------
// Matching rows
// ---------------------------------------------------------------------------

/// A pair of row positions in a join's result: the left row and the right
/// row, either missing where the other side had no match.
pub type RowPair = (Option<usize>, Option<usize>);

/// The positions of the right keys equal to `k`, in order.
pub open spec fn matches_of(right: Seq<ValueModel>, k: ValueModel) -> Seq<usize>
    decreases right.len(),
{
    if right.len() == 0 {
        Seq::empty()
    } else if right.last() == k {
        matches_of(right.drop_last(), k).push((right.len() - 1) as usize)
    } else {
        matches_of(right.drop_last(), k)
    }
}

/// The join type keeps left rows without a match.
pub open spec fn keeps_left(t: JoinType) -> bool {
    t == JoinType::Left || t == JoinType::Outer
}

/// The join type keeps right rows without a match.
pub open spec fn keeps_right(t: JoinType) -> bool {
    t == JoinType::Right || t == JoinType::Outer
}

/// The pairs for the left rows, in order: one pair for each matching right
/// row, in order, or a pair with no right row where the join keeps it.
pub open spec fn left_pairs(left: Seq<ValueModel>, right: Seq<ValueModel>, t: JoinType) -> Seq<RowPair>
    decreases left.len(),
{
    if left.len() == 0 {
        Seq::empty()
    } else {
        let prev = left_pairs(left.drop_last(), right, t);
        let i = (left.len() - 1) as usize;
        let m = matches_of(right, left.last());
        if m.len() > 0 {
            prev + m.map_values(|j: usize| (Some(i), Some(j)))
        } else if keeps_left(t) {
            prev.push((Some(i), None))
        } else {
            prev
        }
    }
}

/// Some left key equals the right key at `j`.
pub open spec fn right_matched(left: Seq<ValueModel>, right: Seq<ValueModel>, j: int) -> bool {
    exists|i: int| 0 <= i < left.len() && left[i] == right[j]
}

/// The pairs for the right rows before `n` that no left row matches, in order.
pub open spec fn unmatched_right(left: Seq<ValueModel>, right: Seq<ValueModel>, n: int) -> Seq<RowPair>
    decreases n,
{
    if n <= 0 {
        Seq::empty()
    } else if right_matched(left, right, n - 1) {
        unmatched_right(left, right, n - 1)
    } else {
        unmatched_right(left, right, n - 1).push((None, Some((n - 1) as usize)))
    }
}

/// The rows of a join of the given type on the given key columns.
pub open spec fn join_rows_spec(t: JoinType, left: Seq<ValueModel>, right: Seq<ValueModel>) -> Seq<RowPair> {
    left_pairs(left, right, t) + if keeps_right(t) {
        unmatched_right(left, right, right.len() as int)
    } else {
        Seq::empty()
    }
}

/// The rows of a join: for each left row in order, a pair with each right
/// row whose key equals its key, in order; a left row without a match is
/// kept, with no right row, by left and outer joins; then right and outer
/// joins add each right row that no left row matched, with no left row.
pub fn join_rows(join_type: JoinType, left_keys: &Vec<Value>, right_keys: &Vec<Value>) -> (r: Vec<RowPair>)
    ensures
        r@ == join_rows_spec(join_type, value_views(left_keys@), value_views(right_keys@)),
{
    let ghost lv = value_views(left_keys@);
    let ghost rv = value_views(right_keys@);
    let mut out: Vec<RowPair> = Vec::new();
    let mut matched: Vec<bool> = Vec::new();
    let mut k: usize = 0;
    while k < right_keys.len()
        invariant
            k <= right_keys@.len(),
            matched@.len() == k,
            forall|x: int| 0 <= x < k ==> !#[trigger] matched@[x],
        decreases right_keys.len() - k,
    {
        matched.push(false);
        k = k + 1;
    }
    let mut i: usize = 0;
    while i < left_keys.len()
        invariant
            i <= left_keys@.len(),
            lv == value_views(left_keys@),
            rv == value_views(right_keys@),
            matched@.len() == rv.len(),
            out@ == left_pairs(lv.take(i as int), rv, join_type),
            forall|x: int| 0 <= x < rv.len() ==> #[trigger] matched@[x] == right_matched(lv.take(i as int), rv, x),
        decreases left_keys.len() - i,
    {
        let ghost prev = out@;
        let ghost li = lv[i as int];
        let mut found = false;
        let mut j: usize = 0;
        while j < right_keys.len()
            invariant
                i < left_keys@.len(),
                j <= right_keys@.len(),
                lv == value_views(left_keys@),
                rv == value_views(right_keys@),
                li == lv[i as int],
                matched@.len() == rv.len(),
                out@ == prev + matches_of(rv.take(j as int), li).map_values(|m: usize| (Some(i), Some(m))),
                found == (matches_of(rv.take(j as int), li).len() > 0),
                forall|x: int| 0 <= x < rv.len() ==> #[trigger] matched@[x] == (right_matched(lv.take(i as int), rv, x)
                    || (x < j && rv[x] == li)),
            decreases right_keys.len() - j,
        {
            let ghost ms = matches_of(rv.take(j as int), li);
            assert(rv.take(j + 1).drop_last() =~= rv.take(j as int));
            assert(rv.take(j + 1).last() == rv[j as int]);
            assert(rv[j as int] == right_keys@[j as int]@);
            assert(li == left_keys@[i as int]@);
            if same_value(&left_keys[i], &right_keys[j]) {
                out.push((Some(i), Some(j)));
                matched.set(j, true);
                found = true;
                assert(ms.push(j).map_values(|m: usize| (Some(i), Some(m))) =~= ms.map_values(
                    |m: usize| (Some(i), Some(m)),
                ).push((Some(i), Some(j))));
            }
            j = j + 1;
        }
        assert(rv.take(rv.len() as int) =~= rv);
        assert(lv.take(i + 1).drop_last() =~= lv.take(i as int));
        assert(lv.take(i + 1).last() == li);
        if !found && (join_type == JoinType::Left || join_type == JoinType::Outer) {
            out.push((Some(i), None));
        }
        assert forall|x: int| 0 <= x < rv.len() implies #[trigger] matched@[x] == right_matched(
            lv.take(i + 1),
            rv,
            x,
        ) by {
            let t1 = lv.take(i + 1);
            let t0 = lv.take(i as int);
            if right_matched(t1, rv, x) {
                let w = choose|w: int| 0 <= w < t1.len() && #[trigger] t1[w] == rv[x];
                if w < i {
                    assert(t0[w] == rv[x]);
                }
            }
            if right_matched(t0, rv, x) {
                let w = choose|w: int| 0 <= w < t0.len() && #[trigger] t0[w] == rv[x];
                assert(t1[w] == rv[x]);
            }
            if rv[x] == li {
                assert(t1[i as int] == rv[x]);
            }
        }
        i = i + 1;
    }
    assert(lv.take(lv.len() as int) =~= lv);
    if join_type == JoinType::Right || join_type == JoinType::Outer {
        let ghost base = out@;
        let mut j: usize = 0;
        while j < right_keys.len()
            invariant
                j <= right_keys@.len(),
                rv == value_views(right_keys@),
                matched@.len() == rv.len(),
                forall|x: int| 0 <= x < rv.len() ==> #[trigger] matched@[x] == right_matched(lv, rv, x),
                out@ == base + unmatched_right(lv, rv, j as int),
            decreases right_keys.len() - j,
        {
            if !matched[j] {
                out.push((None, Some(j)));
            }
            j = j + 1;
        }
    }
    out
}

// ---------------------------------------------------------------------------
// What a join's rows are
// ---------------------------------------------------------------------------

/// A row pair of a join is justified: two rows with equal keys; a left row
/// that no right row matches, where the join keeps those; or a right row
/// that no left row matches, where the join keeps those.
pub open spec fn pair_ok(t: JoinType, left: Seq<ValueModel>, right: Seq<ValueModel>, p: RowPair) -> bool {
    match p {
        (Some(i), Some(j)) => i < left.len() && j < right.len() && left[i as int] == right[j as int],
        (Some(i), None) => keeps_left(t) && i < left.len() && matches_of(right, left[i as int]).len() == 0,
        (None, Some(j)) => keeps_right(t) && j < right.len() && !right_matched(left, right, j as int),
        (None, None) => false,
    }
}

/// Some row pair has left row `i`.
pub open spec fn has_left(r: Seq<RowPair>, i: int) -> bool {
    exists|k: int| 0 <= k < r.len() && #[trigger] r[k].0 == Some(i as usize)
}

/// Some row pair has right row `j`.
pub open spec fn has_right(r: Seq<RowPair>, j: int) -> bool {
    exists|k: int| 0 <= k < r.len() && #[trigger] r[k].1 == Some(j as usize)
}

proof fn lemma_matches_of(right: Seq<ValueModel>, k: ValueModel)
    requires
        right.len() <= usize::MAX,
    ensures
        forall|x: int|
            0 <= x < matches_of(right, k).len() ==> (#[trigger] matches_of(right, k)[x] as int) < right.len()
                && right[matches_of(right, k)[x] as int] == k,
        forall|j: int| 0 <= j < right.len() && right[j] == k ==> #[trigger] matches_of(right, k).contains(j as usize),
    decreases right.len(),
{
    if right.len() > 0 {
        let r0 = right.drop_last();
        lemma_matches_of(r0, k);
        let m0 = matches_of(r0, k);
        assert forall|j: int| 0 <= j < right.len() && right[j] == k implies #[trigger] matches_of(right, k).contains(
            j as usize,
        ) by {
            if j < right.len() - 1 {
                assert(r0[j] == right[j]);
                assert(m0.contains(j as usize));
                let x = choose|x: int| 0 <= x < m0.len() && m0[x] == j as usize;
                assert(matches_of(right, k)[x] == j as usize);
            } else {
                assert(matches_of(right, k)[m0.len() as int] == j as usize);
            }
        }
        assert forall|x: int| 0 <= x < matches_of(right, k).len() implies (#[trigger] matches_of(right, k)[x] as int)
            < right.len() && right[matches_of(right, k)[x] as int] == k by {
            if x < m0.len() {
                assert(matches_of(right, k)[x] == m0[x]);
                assert(r0[m0[x] as int] == right[m0[x] as int]);
            }
        }
    }
}

proof fn lemma_left_pairs(left: Seq<ValueModel>, right: Seq<ValueModel>, t: JoinType)
    requires
        left.len() <= usize::MAX,
        right.len() <= usize::MAX,
    ensures
        forall|k: int|
            0 <= k < left_pairs(left, right, t).len() ==> #[trigger] left_pairs(left, right, t)[k].0 is Some
                && pair_ok(t, left, right, left_pairs(left, right, t)[k]),
        forall|i: int, j: int|
            0 <= i < left.len() && 0 <= j < right.len() && left[i] == right[j] ==> #[trigger] left_pairs(
                left,
                right,
                t,
            ).contains((Some(i as usize), Some(j as usize))),
        keeps_left(t) ==> forall|i: int| 0 <= i < left.len() ==> #[trigger] has_left(left_pairs(left, right, t), i),
    decreases left.len(),
{
    if left.len() > 0 {
        let l0 = left.drop_last();
        let prev = left_pairs(l0, right, t);
        let iu = (left.len() - 1) as usize;
        let m = matches_of(right, left.last());
        let f = |j: usize| (Some(iu), Some(j));
        let cur = left_pairs(left, right, t);
        lemma_left_pairs(l0, right, t);
        lemma_matches_of(right, left.last());
        assert forall|k: int| 0 <= k < cur.len() implies #[trigger] cur[k].0 is Some && pair_ok(t, left, right, cur[k]) by {
            if k < prev.len() {
                assert(cur[k] == prev[k]);
                match prev[k] {
                    (Some(i), Some(j)) => {
                        assert(l0[i as int] == left[i as int]);
                    },
                    (Some(i), None) => {
                        assert(l0[i as int] == left[i as int]);
                    },
                    _ => {},
                }
            } else if m.len() > 0 {
                assert(cur[k] == f(m[k - prev.len()]));
            }
        }
        assert forall|i: int, j: int|
            0 <= i < left.len() && 0 <= j < right.len() && left[i] == right[j] implies #[trigger] cur.contains(
            (Some(i as usize), Some(j as usize)),
        ) by {
            if i < left.len() - 1 {
                assert(l0[i] == left[i]);
                assert(prev.contains((Some(i as usize), Some(j as usize))));
                let k = choose|k: int| 0 <= k < prev.len() && prev[k] == (Some(i as usize), Some(j as usize));
                assert(cur[k] == prev[k]);
            } else {
                assert(m.contains(j as usize));
                let x = choose|x: int| 0 <= x < m.len() && m[x] == j as usize;
                assert(cur[prev.len() + x] == f(m[x]));
            }
        }
        if keeps_left(t) {
            assert forall|i: int| 0 <= i < left.len() implies #[trigger] has_left(cur, i) by {
                if i < left.len() - 1 {
                    assert(has_left(prev, i));
                    let k = choose|k: int| 0 <= k < prev.len() && #[trigger] prev[k].0 == Some(i as usize);
                    assert(cur[k] == prev[k]);
                    assert(cur[k].0 == Some(i as usize));
                } else if m.len() > 0 {
                    assert(cur[prev.len() as int] == f(m[0]));
                    assert(cur[prev.len() as int].0 == Some(i as usize));
                } else {
                    assert(cur[prev.len() as int] == (Some(iu), None::<usize>));
                    assert(cur[prev.len() as int].0 == Some(i as usize));
                }
            }
        }
    }
}

proof fn lemma_unmatched_right(left: Seq<ValueModel>, right: Seq<ValueModel>, n: int, t: JoinType)
    requires
        keeps_right(t),
        n <= right.len(),
        right.len() <= usize::MAX,
    ensures
        forall|k: int|
            0 <= k < unmatched_right(left, right, n).len() ==> #[trigger] unmatched_right(left, right, n)[k].0 is None
                && pair_ok(t, left, right, unmatched_right(left, right, n)[k]),
        forall|j: int| 0 <= j < n && !right_matched(left, right, j) ==> #[trigger] has_right(unmatched_right(left, right, n), j),
    decreases n,
{
    if n > 0 {
        lemma_unmatched_right(left, right, n - 1, t);
        let prev = unmatched_right(left, right, n - 1);
        let cur = unmatched_right(left, right, n);
        assert forall|k: int| 0 <= k < cur.len() implies #[trigger] cur[k].0 is None && pair_ok(t, left, right, cur[k]) by {
            if k < prev.len() {
                assert(cur[k] == prev[k]);
            }
        }
        assert forall|j: int| 0 <= j < n && !right_matched(left, right, j) implies #[trigger] has_right(cur, j) by {
            if j < n - 1 {
                assert(has_right(prev, j));
                let k = choose|k: int| 0 <= k < prev.len() && #[trigger] prev[k].1 == Some(j as usize);
                assert(cur[k] == prev[k]);
            } else {
                assert(cur[prev.len() as int] == (None::<usize>, Some(j as usize)));
            }
        }
    }
}

/// Every row of a join is justified by the keys, and every pair of rows with
/// equal keys is in it.
pub proof fn lemma_join_rows_exact(t: JoinType, left: Seq<ValueModel>, right: Seq<ValueModel>)
    requires
        left.len() <= usize::MAX,
        right.len() <= usize::MAX,
    ensures
        forall|k: int|
            0 <= k < join_rows_spec(t, left, right).len() ==> pair_ok(
                t,
                left,
                right,
                #[trigger] join_rows_spec(t, left, right)[k],
            ),
        forall|i: int, j: int|
            0 <= i < left.len() && 0 <= j < right.len() && left[i] == right[j] ==> #[trigger] join_rows_spec(
                t,
                left,
                right,
            ).contains((Some(i as usize), Some(j as usize))),
{
    lemma_left_pairs(left, right, t);
    let lp = left_pairs(left, right, t);
    let r = join_rows_spec(t, left, right);
    if keeps_right(t) {
        lemma_unmatched_right(left, right, right.len() as int, t);
    }
    assert forall|k: int| 0 <= k < r.len() implies pair_ok(t, left, right, #[trigger] r[k]) by {
        if k < lp.len() {
            assert(r[k] == lp[k]);
        } else {
            assert(r[k] == unmatched_right(left, right, right.len() as int)[k - lp.len()]);
        }
    }
    assert forall|i: int, j: int|
        0 <= i < left.len() && 0 <= j < right.len() && left[i] == right[j] implies #[trigger] r.contains(
        (Some(i as usize), Some(j as usize)),
    ) by {
        assert(lp.contains((Some(i as usize), Some(j as usize))));
        let k = choose|k: int| 0 <= k < lp.len() && lp[k] == (Some(i as usize), Some(j as usize));
        assert(r[k] == lp[k]);
    }
}

/// Left and outer joins keep every left row; right and outer joins keep
/// every right row.
pub proof fn lemma_join_keeps_rows(t: JoinType, left: Seq<ValueModel>, right: Seq<ValueModel>)
    requires
        left.len() <= usize::MAX,
        right.len() <= usize::MAX,
    ensures
        keeps_left(t) ==> forall|i: int| 0 <= i < left.len() ==> #[trigger] has_left(join_rows_spec(t, left, right), i),
        keeps_right(t) ==> forall|j: int| 0 <= j < right.len() ==> #[trigger] has_right(join_rows_spec(t, left, right), j),
{
    lemma_left_pairs(left, right, t);
    let lp = left_pairs(left, right, t);
    let r = join_rows_spec(t, left, right);
    if keeps_left(t) {
        assert forall|i: int| 0 <= i < left.len() implies #[trigger] has_left(r, i) by {
            assert(has_left(lp, i));
            let k = choose|k: int| 0 <= k < lp.len() && #[trigger] lp[k].0 == Some(i as usize);
            assert(r[k] == lp[k]);
        }
    }
    if keeps_right(t) {
        let u = unmatched_right(left, right, right.len() as int);
        lemma_unmatched_right(left, right, right.len() as int, t);
        assert forall|j: int| 0 <= j < right.len() implies #[trigger] has_right(r, j) by {
            if right_matched(left, right, j) {
                let i = choose|i: int| 0 <= i < left.len() && left[i] == right[j];
                assert(lp.contains((Some(i as usize), Some(j as usize))));
                let k = choose|k: int| 0 <= k < lp.len() && lp[k] == (Some(i as usize), Some(j as usize));
                assert(r[k] == lp[k]);
                assert(r[k].1 == Some(j as usize));
            } else {
                assert(has_right(u, j));
                let k = choose|k: int| 0 <= k < u.len() && #[trigger] u[k].1 == Some(j as usize);
                assert(r[lp.len() + k] == u[k]);
                assert(r[lp.len() + k].1 == Some(j as usize));
            }
        }
    }
}

} // verus!
