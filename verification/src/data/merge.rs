//! SQL-style merges of two tables of named columns on key columns, with
//! suffixes for the names the tables share.

use vstd::prelude::*;

use super::error::DataError;
use super::join::RowPair;
use super::predicate::{column_pos, find_column, table_rows};
use super::value::{copy_value, same_value, value_views, Value, ValueModel};
use crate::text::{copy_str, str_eq};

verus! {

/// The content of a table: each column's name and values.
pub open spec fn table_view(t: Seq<(String, Vec<Value>)>) -> Seq<(Seq<char>, Seq<ValueModel>)> {
    t.map_values(|c: (String, Vec<Value>)| (c.0@, value_views(c.1@)))
}

/// Whether one of the names is `name`.
pub open spec fn names_contain(names: Seq<String>, name: Seq<char>) -> bool {
    exists|k: int| 0 <= k < names.len() && (#[trigger] names[k])@ == name
}

/// The key of row `i`: its value in each of the named columns, in order.
pub open spec fn key_of(cols: Seq<(String, Vec<Value>)>, on: Seq<String>, i: int) -> Seq<ValueModel> {
    on.map_values(|c: String| cols[column_pos(cols, c@)].1@[i]@)
}

/// The keys of the first `n` rows.
pub open spec fn keys_of(cols: Seq<(String, Vec<Value>)>, on: Seq<String>, n: nat) -> Seq<Seq<ValueModel>> {
    Seq::new(n, |i: int| key_of(cols, on, i))
}

/// The positions of the keys equal to `k`, in order.
pub open spec fn key_matches(keys: Seq<Seq<ValueModel>>, k: Seq<ValueModel>) -> Seq<usize>
    decreases keys.len(),
{
    if keys.len() == 0 {
        Seq::empty()
    } else if keys.last() == k {
        key_matches(keys.drop_last(), k).push((keys.len() - 1) as usize)
    } else {
        key_matches(keys.drop_last(), k)
    }
}

/// The pairs for the left rows, in order: each with every right row of the
/// same key, in order; a left row without one is kept alone when `keep` is
/// set.
pub open spec fn left_led(lk: Seq<Seq<ValueModel>>, rk: Seq<Seq<ValueModel>>, keep: bool) -> Seq<RowPair>
    decreases lk.len(),
{
    if lk.len() == 0 {
        Seq::empty()
    } else {
        let prev = left_led(lk.drop_last(), rk, keep);
        let i = (lk.len() - 1) as usize;
        let m = key_matches(rk, lk.last());
        if m.len() > 0 {
            prev + m.map_values(|j: usize| (Some(i), Some(j)))
        } else if keep {
            prev.push((Some(i), None))
        } else {
            prev
        }
    }
}

/// The pairs for the right rows, in order: each with every left row of the
/// same key, in order, or alone.
pub open spec fn right_led(lk: Seq<Seq<ValueModel>>, rk: Seq<Seq<ValueModel>>) -> Seq<RowPair>
    decreases rk.len(),
{
    if rk.len() == 0 {
        Seq::empty()
    } else {
        let prev = right_led(lk, rk.drop_last());
        let j = (rk.len() - 1) as usize;
        let m = key_matches(lk, rk.last());
        if m.len() > 0 {
            prev + m.map_values(|i: usize| (Some(i), Some(j)))
        } else {
            prev.push((None, Some(j)))
        }
    }
}

/// The right rows no left row shares a key with, in order, alone.
pub open spec fn unmatched_right_rows(lk: Seq<Seq<ValueModel>>, rk: Seq<Seq<ValueModel>>) -> Seq<RowPair>
    decreases rk.len(),
{
    if rk.len() == 0 {
        Seq::empty()
    } else {
        let prev = unmatched_right_rows(lk, rk.drop_last());
        if key_matches(lk, rk.last()).len() == 0 {
            prev.push((None, Some((rk.len() - 1) as usize)))
        } else {
            prev
        }
    }
}

/// The join types a merge accepts, by name.
pub open spec fn merge_kind(how: Seq<char>) -> Option<int> {
    if how == "inner"@ {
        Some(0)
    } else if how == "left"@ {
        Some(1)
    } else if how == "right"@ {
        Some(2)
    } else if how == "outer"@ || how == "full"@ {
        Some(3)
    } else {
        None
    }
}

/// The rows of a merge: an inner merge pairs each left row with the right
/// rows of the same key; a left merge also keeps left rows without one; a
/// right merge goes by the right rows instead; an outer merge is a left
/// merge followed by the right rows no left row matched.
pub open spec fn merge_pairs(kind: int, lk: Seq<Seq<ValueModel>>, rk: Seq<Seq<ValueModel>>) -> Seq<RowPair> {
    if kind == 0 {
        left_led(lk, rk, false)
    } else if kind == 1 {
        left_led(lk, rk, true)
    } else if kind == 2 {
        right_led(lk, rk)
    } else {
        left_led(lk, rk, true) + unmatched_right_rows(lk, rk)
    }
}

/// The first join column, in order, that one of the tables lacks, and
/// whether it is the left table (which is looked at first).
pub open spec fn first_missing(left: Seq<(String, Vec<Value>)>, right: Seq<(String, Vec<Value>)>, on: Seq<String>) -> Option<
    (Seq<char>, bool),
>
    decreases on.len(),
{
    if on.len() == 0 {
        None
    } else {
        match first_missing(left, right, on.drop_last()) {
            Some(x) => Some(x),
            None => {
                let c = on.last()@;
                if column_pos(left, c) < 0 {
                    Some((c, true))
                } else if column_pos(right, c) < 0 {
                    Some((c, false))
                } else {
                    None
                }
            },
        }
    }
}

/// The message for a join column a table lacks.
pub open spec fn missing_message(c: Seq<char>, in_left: bool) -> Seq<char> {
    "join column '"@ + c + if in_left {
        "' not found in left DataFrame"@
    } else {
        "' not found in right DataFrame"@
    }
}

/// The message for a join type a merge does not know.
pub open spec fn unknown_kind_message(how: Seq<char>) -> Seq<char> {
    "unsupported join type '"@ + how + "': use 'inner', 'left', 'right', or 'outer'"@
}

/// The values of one side's column along the merged rows: the row's value
/// where the pair has a row of that side, null where it has none.
pub open spec fn side_values(col: Seq<ValueModel>, pairs: Seq<RowPair>, left_side: bool) -> Seq<ValueModel> {
    Seq::new(
        pairs.len(),
        |p: int|
            match (if left_side {
                pairs[p].0
            } else {
                pairs[p].1
            }) {
                Some(i) => col[i as int],
                None => ValueModel::Null,
            },
    )
}

/// The left columns of a merge, in order: a name the right table also has
/// takes the left suffix unless it is a join column; the values come from
/// the first left column of that name.
pub open spec fn left_columns(
    left: Seq<(String, Vec<Value>)>,
    right: Seq<(String, Vec<Value>)>,
    on: Seq<String>,
    pairs: Seq<RowPair>,
    suffix: Seq<char>,
) -> Seq<(Seq<char>, Seq<ValueModel>)> {
    Seq::new(
        left.len(),
        |k: int|
            {
                let c = left[k].0@;
                let name = if !names_contain(on, c) && column_pos(right, c) >= 0 {
                    c + suffix
                } else {
                    c
                };
                (name, side_values(value_views(left[column_pos(left, c)].1@), pairs, true))
            },
    )
}

/// The right columns of a merge, in order, but for the join columns: a name
/// the left table also has takes the right suffix; the values come from the
/// first right column of that name.
pub open spec fn right_columns(
    left: Seq<(String, Vec<Value>)>,
    right_all: Seq<(String, Vec<Value>)>,
    right: Seq<(String, Vec<Value>)>,
    on: Seq<String>,
    pairs: Seq<RowPair>,
    suffix: Seq<char>,
) -> Seq<(Seq<char>, Seq<ValueModel>)>
    decreases right.len(),
{
    if right.len() == 0 {
        Seq::empty()
    } else {
        let prev = right_columns(left, right_all, right.drop_last(), on, pairs, suffix);
        let c = right.last().0@;
        if names_contain(on, c) {
            prev
        } else {
            let name = if column_pos(left, c) >= 0 {
                c + suffix
            } else {
                c
            };
            prev.push((name, side_values(value_views(right_all[column_pos(right_all, c)].1@), pairs, false)))
        }
    }
}

/// The result of merging two tables of `ln` and `rn` rows, or the message of
/// the error: a missing join column (`true`) or an unknown join type.
pub open spec fn merge_result(
    left: Seq<(String, Vec<Value>)>,
    ln: nat,
    right: Seq<(String, Vec<Value>)>,
    rn: nat,
    on: Seq<String>,
    how: Seq<char>,
    suffixes: (Seq<char>, Seq<char>),
) -> Result<Seq<(Seq<char>, Seq<ValueModel>)>, (bool, Seq<char>)> {
    match first_missing(left, right, on) {
        Some((c, in_left)) => Err((true, missing_message(c, in_left))),
        None => match merge_kind(how) {
            None => Err((false, unknown_kind_message(how))),
            Some(kind) => {
                let pairs = merge_pairs(kind, keys_of(left, on, ln), keys_of(right, on, rn));
                Ok(left_columns(left, right, on, pairs, suffixes.0) + right_columns(left, right, right, on, pairs, suffixes.1))
            },
        },
    }
}

// ---------------------------------------------------------------------------
// Finding the join columns
// ---------------------------------------------------------------------------

/// A join column missing among the first `k` is the first missing among all.
proof fn lemma_first_missing_prefix(left: Seq<(String, Vec<Value>)>, right: Seq<(String, Vec<Value>)>, on: Seq<String>, k: int)
    requires
        0 <= k <= on.len(),
        first_missing(left, right, on.take(k)) is Some,
    ensures
        first_missing(left, right, on) == first_missing(left, right, on.take(k)),
    decreases on.len() - k,
{
    if k < on.len() {
        assert(on.take(k + 1).drop_last() =~= on.take(k));
        lemma_first_missing_prefix(left, right, on, k + 1);
    } else {
        assert(on.take(k) =~= on);
    }
}

/// The message for a missing join column.
fn missing_column_message(c: &String, in_left: bool) -> (r: String)
    ensures
        r@ == missing_message(c@, in_left),
{
    let mut m = String::new();
    m.append("join column '");
    m.append(c.as_str());
    if in_left {
        m.append("' not found in left DataFrame");
    } else {
        m.append("' not found in right DataFrame");
    }
    assert(m@ =~= missing_message(c@, in_left));
    m
}

/// The join columns' positions in each table.
pub open spec fn positions_of(cols: Seq<(String, Vec<Value>)>, on: Seq<String>, pos: Seq<usize>) -> bool {
    &&& pos.len() == on.len()
    &&& forall|k: int|
        0 <= k < on.len() ==> (#[trigger] pos[k]) < cols.len() && pos[k] as int == column_pos(cols, on[k]@)
}

/// The positions of the join columns in both tables, or the error for the
/// first that one of them lacks.
fn join_positions(left: &Vec<(String, Vec<Value>)>, right: &Vec<(String, Vec<Value>)>, on: &Vec<String>) -> (r: Result<
    (Vec<usize>, Vec<usize>),
    DataError,
>)
    ensures
        match first_missing(left@, right@, on@) {
            Some((c, in_left)) => r matches Err(DataError::ColumnNotFound(m)) && m@ == missing_message(c, in_left),
            None => r matches Ok((lp, rp)) && positions_of(left@, on@, lp@) && positions_of(right@, on@, rp@),
        },
{
    let mut lp: Vec<usize> = Vec::new();
    let mut rp: Vec<usize> = Vec::new();
    let mut i: usize = 0;
    while i < on.len()
        invariant
            i <= on@.len(),
            first_missing(left@, right@, on@.take(i as int)) is None,
            positions_of(left@, on@.take(i as int), lp@),
            positions_of(right@, on@.take(i as int), rp@),
        decreases on.len() - i,
    {
        assert(on@.take(i + 1).drop_last() =~= on@.take(i as int));
        assert(on@.take(i + 1).last() == on@[i as int]);
        let lk = find_column(left, &on[i]);
        if lk.is_none() {
            proof {
                lemma_first_missing_prefix(left@, right@, on@, i + 1);
            }
            return Err(DataError::ColumnNotFound(missing_column_message(&on[i], true)));
        }
        let rk = find_column(right, &on[i]);
        if rk.is_none() {
            proof {
                lemma_first_missing_prefix(left@, right@, on@, i + 1);
            }
            return Err(DataError::ColumnNotFound(missing_column_message(&on[i], false)));
        }
        lp.push(lk.unwrap());
        rp.push(rk.unwrap());
        i = i + 1;
    }
    assert(on@.take(on@.len() as int) =~= on@);
    Ok((lp, rp))
}

/// Whether left row `i` and right row `j` have the same key.
fn same_key(
    left: &Vec<(String, Vec<Value>)>,
    lp: &Vec<usize>,
    i: usize,
    right: &Vec<(String, Vec<Value>)>,
    rp: &Vec<usize>,
    j: usize,
    Ghost(on): Ghost<Seq<String>>,
    Ghost(ln): Ghost<nat>,
    Ghost(rn): Ghost<nat>,
) -> (r: bool)
    requires
        table_rows(left@, ln),
        table_rows(right@, rn),
        positions_of(left@, on, lp@),
        positions_of(right@, on, rp@),
        i < ln,
        j < rn,
    ensures
        r == (key_of(left@, on, i as int) == key_of(right@, on, j as int)),
{
    let mut k: usize = 0;
    while k < lp.len()
        invariant
            k <= lp@.len(),
            table_rows(left@, ln),
            table_rows(right@, rn),
            positions_of(left@, on, lp@),
            positions_of(right@, on, rp@),
            i < ln,
            j < rn,
            forall|m: int| 0 <= m < k ==> (#[trigger] key_of(left@, on, i as int)[m]) == key_of(right@, on, j as int)[m],
        decreases lp.len() - k,
    {
        let lc = &left[lp[k]].1;
        let rc = &right[rp[k]].1;
        assert(lc@.len() == ln && rc@.len() == rn) by {
            assert(left@[lp@[k as int] as int].1@.len() == ln);
            assert(right@[rp@[k as int] as int].1@.len() == rn);
        }
        if !same_value(&lc[i], &rc[j]) {
            assert(key_of(left@, on, i as int)[k as int] != key_of(right@, on, j as int)[k as int]);
            return false;
        }
        k = k + 1;
    }
    assert(key_of(left@, on, i as int) =~= key_of(right@, on, j as int));
    true
}

// ---------------------------------------------------------------------------
// Pairing the rows
// ---------------------------------------------------------------------------

/// The requirements shared by the pairing loops.
pub open spec fn merge_inputs(
    left: Seq<(String, Vec<Value>)>,
    lp: Seq<usize>,
    ln: nat,
    right: Seq<(String, Vec<Value>)>,
    rp: Seq<usize>,
    rn: nat,
    on: Seq<String>,
) -> bool {
    &&& table_rows(left, ln)
    &&& table_rows(right, rn)
    &&& positions_of(left, on, lp)
    &&& positions_of(right, on, rp)
}

/// Each pair's rows are rows of their tables.
pub open spec fn pairs_below(pairs: Seq<RowPair>, ln: nat, rn: nat) -> bool {
    forall|p: int|
        0 <= p < pairs.len() ==> (match (#[trigger] pairs[p]).0 {
            Some(i) => (i as nat) < ln,
            None => true,
        }) && (match pairs[p].1 {
            Some(j) => (j as nat) < rn,
            None => true,
        })
}

/// The pairs of one row with the rows among the first `n` of the same key.
proof fn lemma_pairs_step(keys: Seq<Seq<ValueModel>>, k: Seq<ValueModel>, n: int)
    requires
        0 <= n < keys.len(),
    ensures
        key_matches(keys.take(n + 1), k) == if keys[n] == k {
            key_matches(keys.take(n), k).push(n as usize)
        } else {
            key_matches(keys.take(n), k)
        },
{
    assert(keys.take(n + 1).drop_last() =~= keys.take(n));
    assert(keys.take(n + 1).last() == keys[n]);
}

/// Matches among the first `n` keys are positions below `n`.
proof fn lemma_matches_below(keys: Seq<Seq<ValueModel>>, k: Seq<ValueModel>)
    ensures
        forall|q: int| 0 <= q < key_matches(keys, k).len() ==> (#[trigger] key_matches(keys, k)[q] as int) < keys.len(),
        key_matches(keys, k).len() == 0 <==> forall|q: int| 0 <= q < keys.len() ==> #[trigger] keys[q] != k,
    decreases keys.len(),
{
    if keys.len() > 0 {
        lemma_matches_below(keys.drop_last(), k);
        let m = key_matches(keys.drop_last(), k);
        assert forall|q: int| 0 <= q < keys.len() - 1 implies keys.drop_last()[q] == #[trigger] keys[q] by {}
        if keys.last() != k {
            if key_matches(keys, k).len() != 0 {
                assert(exists|q: int| 0 <= q < keys.drop_last().len() && keys.drop_last()[q] == k);
            }
        }
    }
}

/// The pairs for the left rows.
fn left_led_pairs(
    left: &Vec<(String, Vec<Value>)>,
    lp: &Vec<usize>,
    ln: usize,
    right: &Vec<(String, Vec<Value>)>,
    rp: &Vec<usize>,
    rn: usize,
    keep: bool,
    Ghost(on): Ghost<Seq<String>>,
) -> (r: Vec<RowPair>)
    requires
        merge_inputs(left@, lp@, ln as nat, right@, rp@, rn as nat, on),
    ensures
        r@ == left_led(keys_of(left@, on, ln as nat), keys_of(right@, on, rn as nat), keep),
        pairs_below(r@, ln as nat, rn as nat),
{
    let ghost lk = keys_of(left@, on, ln as nat);
    let ghost rk = keys_of(right@, on, rn as nat);
    let mut out: Vec<RowPair> = Vec::new();
    let mut i: usize = 0;
    while i < ln
        invariant
            i <= ln,
            merge_inputs(left@, lp@, ln as nat, right@, rp@, rn as nat, on),
            lk == keys_of(left@, on, ln as nat),
            rk == keys_of(right@, on, rn as nat),
            out@ == left_led(lk.take(i as int), rk, keep),
            pairs_below(out@, ln as nat, rn as nat),
        decreases ln - i,
    {
        let ghost before = out@;
        let ghost key = lk[i as int];
        let mut found = false;
        let mut j: usize = 0;
        while j < rn
            invariant
                i < ln,
                j <= rn,
                merge_inputs(left@, lp@, ln as nat, right@, rp@, rn as nat, on),
                lk == keys_of(left@, on, ln as nat),
                rk == keys_of(right@, on, rn as nat),
                key == lk[i as int],
                out@ == before + key_matches(rk.take(j as int), key).map_values(|x: usize| (Some(i), Some(x))),
                found == (key_matches(rk.take(j as int), key).len() > 0),
                pairs_below(out@, ln as nat, rn as nat),
            decreases rn - j,
        {
            proof {
                lemma_pairs_step(rk, key, j as int);
            }
            let ghost m = key_matches(rk.take(j as int), key);
            if same_key(left, lp, i, right, rp, j, Ghost(on), Ghost(ln as nat), Ghost(rn as nat)) {
                out.push((Some(i), Some(j)));
                found = true;
                assert(m.push(j).map_values(|x: usize| (Some(i), Some(x))) =~= m.map_values(
                    |x: usize| (Some(i), Some(x)),
                ).push((Some(i), Some(j))));
            }
            j = j + 1;
        }
        assert(rk.take(rn as int) =~= rk);
        if !found && keep {
            out.push((Some(i), None));
        }
        assert(lk.take(i + 1).drop_last() =~= lk.take(i as int));
        assert(lk.take(i + 1).last() == key);
        i = i + 1;
    }
    assert(lk.take(ln as int) =~= lk);
    out
}

/// The pairs for the right rows.
fn right_led_pairs(
    left: &Vec<(String, Vec<Value>)>,
    lp: &Vec<usize>,
    ln: usize,
    right: &Vec<(String, Vec<Value>)>,
    rp: &Vec<usize>,
    rn: usize,
    Ghost(on): Ghost<Seq<String>>,
) -> (r: Vec<RowPair>)
    requires
        merge_inputs(left@, lp@, ln as nat, right@, rp@, rn as nat, on),
    ensures
        r@ == right_led(keys_of(left@, on, ln as nat), keys_of(right@, on, rn as nat)),
        pairs_below(r@, ln as nat, rn as nat),
{
    let ghost lk = keys_of(left@, on, ln as nat);
    let ghost rk = keys_of(right@, on, rn as nat);
    let mut out: Vec<RowPair> = Vec::new();
    let mut j: usize = 0;
    while j < rn
        invariant
            j <= rn,
            merge_inputs(left@, lp@, ln as nat, right@, rp@, rn as nat, on),
            lk == keys_of(left@, on, ln as nat),
            rk == keys_of(right@, on, rn as nat),
            out@ == right_led(lk, rk.take(j as int)),
            pairs_below(out@, ln as nat, rn as nat),
        decreases rn - j,
    {
        let ghost before = out@;
        let ghost key = rk[j as int];
        let mut found = false;
        let mut i: usize = 0;
        while i < ln
            invariant
                j < rn,
                i <= ln,
                merge_inputs(left@, lp@, ln as nat, right@, rp@, rn as nat, on),
                lk == keys_of(left@, on, ln as nat),
                rk == keys_of(right@, on, rn as nat),
                key == rk[j as int],
                out@ == before + key_matches(lk.take(i as int), key).map_values(|x: usize| (Some(x), Some(j))),
                found == (key_matches(lk.take(i as int), key).len() > 0),
                pairs_below(out@, ln as nat, rn as nat),
            decreases ln - i,
        {
            proof {
                lemma_pairs_step(lk, key, i as int);
            }
            let ghost m = key_matches(lk.take(i as int), key);
            if same_key(left, lp, i, right, rp, j, Ghost(on), Ghost(ln as nat), Ghost(rn as nat)) {
                out.push((Some(i), Some(j)));
                found = true;
                assert(m.push(i).map_values(|x: usize| (Some(x), Some(j))) =~= m.map_values(
                    |x: usize| (Some(x), Some(j)),
                ).push((Some(i), Some(j))));
            }
            i = i + 1;
        }
        assert(lk.take(ln as int) =~= lk);
        if !found {
            out.push((None, Some(j)));
        }
        assert(rk.take(j + 1).drop_last() =~= rk.take(j as int));
        assert(rk.take(j + 1).last() == key);
        j = j + 1;
    }
    assert(rk.take(rn as int) =~= rk);
    out
}

/// Appends the right rows that no left row shares a key with.
fn push_unmatched_right(
    out: &mut Vec<RowPair>,
    left: &Vec<(String, Vec<Value>)>,
    lp: &Vec<usize>,
    ln: usize,
    right: &Vec<(String, Vec<Value>)>,
    rp: &Vec<usize>,
    rn: usize,
    Ghost(on): Ghost<Seq<String>>,
)
    requires
        merge_inputs(left@, lp@, ln as nat, right@, rp@, rn as nat, on),
        pairs_below(old(out)@, ln as nat, rn as nat),
    ensures
        final(out)@ == old(out)@ + unmatched_right_rows(keys_of(left@, on, ln as nat), keys_of(right@, on, rn as nat)),
        pairs_below(final(out)@, ln as nat, rn as nat),
{
    let ghost lk = keys_of(left@, on, ln as nat);
    let ghost rk = keys_of(right@, on, rn as nat);
    let ghost start = out@;
    let mut j: usize = 0;
    while j < rn
        invariant
            j <= rn,
            merge_inputs(left@, lp@, ln as nat, right@, rp@, rn as nat, on),
            lk == keys_of(left@, on, ln as nat),
            rk == keys_of(right@, on, rn as nat),
            out@ == start + unmatched_right_rows(lk, rk.take(j as int)),
            pairs_below(out@, ln as nat, rn as nat),
        decreases rn - j,
    {
        let ghost key = rk[j as int];
        let mut found = false;
        let mut i: usize = 0;
        while i < ln
            invariant
                j < rn,
                i <= ln,
                merge_inputs(left@, lp@, ln as nat, right@, rp@, rn as nat, on),
                lk == keys_of(left@, on, ln as nat),
                rk == keys_of(right@, on, rn as nat),
                key == rk[j as int],
                found == (key_matches(lk.take(i as int), key).len() > 0),
            decreases ln - i,
        {
            proof {
                lemma_pairs_step(lk, key, i as int);
            }
            if same_key(left, lp, i, right, rp, j, Ghost(on), Ghost(ln as nat), Ghost(rn as nat)) {
                found = true;
            }
            i = i + 1;
        }
        assert(lk.take(ln as int) =~= lk);
        let ghost before = out@;
        if !found {
            out.push((None, Some(j)));
        }
        assert(rk.take(j + 1).drop_last() =~= rk.take(j as int));
        assert(rk.take(j + 1).last() == key);
        assert(out@ =~= start + unmatched_right_rows(lk, rk.take(j + 1)));
        j = j + 1;
    }
    assert(rk.take(rn as int) =~= rk);
}

// ---------------------------------------------------------------------------
// Building the columns
// ---------------------------------------------------------------------------

/// What `column_pos` finds: a column of that name, or none exists.
pub proof fn lemma_column_pos(cols: Seq<(String, Vec<Value>)>, name: Seq<char>)
    ensures
        -1 <= column_pos(cols, name) < cols.len(),
        column_pos(cols, name) >= 0 ==> cols[column_pos(cols, name)].0@ == name,
        column_pos(cols, name) < 0 ==> forall|k: int| 0 <= k < cols.len() ==> (#[trigger] cols[k]).0@ != name,
    decreases cols.len(),
{
    if cols.len() > 0 {
        lemma_column_pos(cols.drop_last(), name);
        if column_pos(cols, name) < 0 {
            assert forall|k: int| 0 <= k < cols.len() implies (#[trigger] cols[k]).0@ != name by {
                if k < cols.len() - 1 {
                    assert(cols[k] == cols.drop_last()[k]);
                }
            }
        }
    }
}

/// Whether one of the names is `name`.
fn names_contain_exec(names: &Vec<String>, name: &String) -> (r: bool)
    ensures
        r == names_contain(names@, name@),
{
    let mut k: usize = 0;
    while k < names.len()
        invariant
            k <= names@.len(),
            forall|m: int| 0 <= m < k ==> (#[trigger] names@[m])@ != name@,
        decreases names.len() - k,
    {
        if str_eq(names[k].as_str(), name.as_str()) {
            return true;
        }
        k = k + 1;
    }
    false
}

/// `name` followed by `suffix`.
fn with_suffix(name: &String, suffix: &str) -> (r: String)
    ensures
        r@ == name@ + suffix@,
{
    let mut s = copy_str(name.as_str());
    s.append(suffix);
    s
}

/// One side's column along the merged rows.
fn side_column(col: &Vec<Value>, pairs: &Vec<RowPair>, left_side: bool, Ghost(ln): Ghost<nat>, Ghost(rn): Ghost<nat>) -> (r: Vec<Value>)
    requires
        pairs_below(pairs@, ln, rn),
        col@.len() == (if left_side {
            ln
        } else {
            rn
        }),
    ensures
        value_views(r@) == side_values(value_views(col@), pairs@, left_side),
{
    let ghost cv = value_views(col@);
    let mut out: Vec<Value> = Vec::new();
    let mut p: usize = 0;
    while p < pairs.len()
        invariant
            p <= pairs@.len(),
            pairs_below(pairs@, ln, rn),
            col@.len() == (if left_side {
                ln
            } else {
                rn
            }),
            cv == value_views(col@),
            out@.len() == p,
            forall|q: int| 0 <= q < p ==> (#[trigger] out@[q])@ == side_values(cv, pairs@, left_side)[q],
        decreases pairs.len() - p,
    {
        let side = if left_side {
            pairs[p].0
        } else {
            pairs[p].1
        };
        let v = match side {
            Some(i) => copy_value(&col[i]),
            None => Value::Null,
        };
        out.push(v);
        p = p + 1;
    }
    assert(value_views(out@) =~= side_values(cv, pairs@, left_side));
    out
}

/// The message for an unknown join type.
fn unknown_kind(how: &str) -> (r: String)
    ensures
        r@ == unknown_kind_message(how@),
{
    let mut m = String::new();
    m.append("unsupported join type '");
    m.append(how);
    m.append("': use 'inner', 'left', 'right', or 'outer'");
    assert(m@ =~= unknown_kind_message(how@));
    m
}

/// Merge two tables of `left_rows` and `right_rows` rows, given as named
/// columns, SQL-style on the join columns `on`; see [`merge_result`]. Every
/// join column must be in both tables (`ColumnNotFound` names the first
/// that is not, looking at the left table first); `how` is `inner`,
/// `left`, `right`, `outer` or `full` (`InvalidOperation` otherwise). Keys
/// are equal when their values are, nulls included. The result has the
/// left columns, then the right columns but for the join columns; a name
/// both tables have takes `suffixes.0` on the left and `suffixes.1` on the
/// right, but for the join columns.
pub fn merge(
    left: &Vec<(String, Vec<Value>)>,
    left_rows: usize,
    right: &Vec<(String, Vec<Value>)>,
    right_rows: usize,
    on: &Vec<String>,
    how: &str,
    suffixes: (&str, &str),
) -> (r: Result<Vec<(String, Vec<Value>)>, DataError>)
    requires
        table_rows(left@, left_rows as nat),
        table_rows(right@, right_rows as nat),
    ensures
        match merge_result(left@, left_rows as nat, right@, right_rows as nat, on@, how@, (suffixes.0@, suffixes.1@)) {
            Ok(t) => r matches Ok(out) && table_view(out@) == t,
            Err((missing, m)) => if missing {
                r matches Err(DataError::ColumnNotFound(s)) && s@ == m
            } else {
                r matches Err(DataError::InvalidOperation(s)) && s@ == m
            },
        },
{
    let (lp, rp) = join_positions(left, right, on)?;
    let ghost ln = left_rows as nat;
    let ghost rn = right_rows as nat;
    let ghost lk = keys_of(left@, on@, ln);
    let ghost rk = keys_of(right@, on@, rn);
    let pairs = if str_eq(how, "inner") {
        left_led_pairs(left, &lp, left_rows, right, &rp, right_rows, false, Ghost(on@))
    } else if str_eq(how, "left") {
        left_led_pairs(left, &lp, left_rows, right, &rp, right_rows, true, Ghost(on@))
    } else if str_eq(how, "right") {
        right_led_pairs(left, &lp, left_rows, right, &rp, right_rows, Ghost(on@))
    } else if str_eq(how, "outer") || str_eq(how, "full") {
        let mut p = left_led_pairs(left, &lp, left_rows, right, &rp, right_rows, true, Ghost(on@));
        push_unmatched_right(&mut p, left, &lp, left_rows, right, &rp, right_rows, Ghost(on@));
        p
    } else {
        return Err(DataError::InvalidOperation(unknown_kind(how)));
    };
    assert(pairs@ == merge_pairs(merge_kind(how@).unwrap(), lk, rk));
    let ghost lcols = left_columns(left@, right@, on@, pairs@, suffixes.0@);
    let mut out: Vec<(String, Vec<Value>)> = Vec::new();
    let mut k: usize = 0;
    while k < left.len()
        invariant
            k <= left@.len(),
            table_rows(left@, ln),
            pairs_below(pairs@, ln, rn),
            lcols == left_columns(left@, right@, on@, pairs@, suffixes.0@),
            table_view(out@) == lcols.take(k as int),
        decreases left.len() - k,
    {
        let c = &left[k].0;
        let shared = !names_contain_exec(on, c) && find_column(right, c).is_some();
        let name = if shared {
            with_suffix(c, suffixes.0)
        } else {
            copy_str(c.as_str())
        };
        proof {
            lemma_column_pos(left@, c@);
            assert(left@[k as int].0@ == c@);
        }
        let pos = find_column(left, c).unwrap();
        assert(left@[pos as int].1@.len() == ln);
        let vals = side_column(&left[pos].1, &pairs, true, Ghost(ln), Ghost(rn));
        let ghost before = out@;
        out.push((name, vals));
        assert(table_view(out@) =~= table_view(before).push(lcols[k as int]));
        assert(lcols.take(k + 1) =~= lcols.take(k as int).push(lcols[k as int]));
        k = k + 1;
    }
    assert(lcols.take(left@.len() as int) =~= lcols);
    let mut k: usize = 0;
    while k < right.len()
        invariant
            k <= right@.len(),
            table_rows(right@, rn),
            pairs_below(pairs@, ln, rn),
            lcols == left_columns(left@, right@, on@, pairs@, suffixes.0@),
            table_view(out@) == lcols + right_columns(left@, right@, right@.take(k as int), on@, pairs@, suffixes.1@),
        decreases right.len() - k,
    {
        let c = &right[k].0;
        assert(right@.take(k + 1).drop_last() =~= right@.take(k as int));
        assert(right@.take(k + 1).last() == right@[k as int]);
        if !names_contain_exec(on, c) {
            let name = if find_column(left, c).is_some() {
                with_suffix(c, suffixes.1)
            } else {
                copy_str(c.as_str())
            };
            proof {
                lemma_column_pos(right@, c@);
            }
            let pos = find_column(right, c).unwrap();
            assert(right@[pos as int].1@.len() == rn);
            let vals = side_column(&right[pos].1, &pairs, false, Ghost(ln), Ghost(rn));
            let ghost before = out@;
            out.push((name, vals));
            assert(table_view(out@) =~= table_view(before).push((name@, value_views(vals@))));
        }
        k = k + 1;
    }
    assert(right@.take(right@.len() as int) =~= right@);
    Ok(out)
}


// ---------------------------------------------------------------------------
// Merging by content
// ---------------------------------------------------------------------------

/// The text of each string.
pub open spec fn string_views(s: Seq<String>) -> Seq<Seq<char>> {
    s.map_values(|x: String| x@)
}

/// A table of the given content.
pub open spec fn table_of_view(tv: Seq<(Seq<char>, Seq<ValueModel>)>) -> Seq<(String, Vec<Value>)> {
    choose|t: Seq<(String, Vec<Value>)>| table_view(t) == tv
}

/// Strings of the given texts.
pub open spec fn strings_of(names: Seq<Seq<char>>) -> Seq<String> {
    choose|s: Seq<String>| string_views(s) == names
}

/// The result of merging tables of the given contents on the named columns;
/// see [`merge_result`], which depends on the contents alone
/// ([`lemma_merged_view`]).
pub open spec fn merged_view(
    lv: Seq<(Seq<char>, Seq<ValueModel>)>,
    ln: nat,
    rv: Seq<(Seq<char>, Seq<ValueModel>)>,
    rn: nat,
    on: Seq<Seq<char>>,
    how: Seq<char>,
    suffixes: (Seq<char>, Seq<char>),
) -> Result<Seq<(Seq<char>, Seq<ValueModel>)>, (bool, Seq<char>)> {
    merge_result(table_of_view(lv), ln, table_of_view(rv), rn, strings_of(on), how, suffixes)
}

/// Tables of the same content are as long and find each name at the same
/// place.
pub proof fn lemma_pos_same(a: Seq<(String, Vec<Value>)>, b: Seq<(String, Vec<Value>)>, name: Seq<char>)
    requires
        table_view(a) == table_view(b),
    ensures
        a.len() == b.len(),
        column_pos(a, name) == column_pos(b, name),
    decreases a.len(),
{
    assert(a.len() == table_view(a).len());
    assert(b.len() == table_view(b).len());
    if a.len() > 0 {
        assert(table_view(a.drop_last()) =~= table_view(b.drop_last())) by {
            assert forall|k: int| 0 <= k < a.len() - 1 implies #[trigger] table_view(a.drop_last())[k] == table_view(
                b.drop_last(),
            )[k] by {
                assert(table_view(a)[k] == table_view(b)[k]);
            }
        }
        lemma_pos_same(a.drop_last(), b.drop_last(), name);
        assert(table_view(a)[a.len() - 1] == table_view(b)[a.len() - 1]);
    }
}

/// The values of a column, read through the table's content.
pub proof fn lemma_values_same(a: Seq<(String, Vec<Value>)>, b: Seq<(String, Vec<Value>)>, p: int)
    requires
        table_view(a) == table_view(b),
        0 <= p < a.len(),
    ensures
        value_views(a[p].1@) == value_views(b[p].1@),
        a[p].0@ == b[p].0@,
        a[p].1@.len() == b[p].1@.len(),
{
    assert(a.len() == table_view(a).len());
    assert(b.len() == table_view(b).len());
    assert(table_view(a)[p] == (a[p].0@, value_views(a[p].1@)));
    assert(table_view(b)[p] == (b[p].0@, value_views(b[p].1@)));
    assert(table_view(a)[p] == table_view(b)[p]);
    assert(value_views(a[p].1@).len() == a[p].1@.len());
    assert(value_views(b[p].1@).len() == b[p].1@.len());
}

/// Lists of the same texts name the same columns.
proof fn lemma_contain_same(on1: Seq<String>, on2: Seq<String>, c: Seq<char>)
    requires
        string_views(on1) == string_views(on2),
    ensures
        names_contain(on1, c) == names_contain(on2, c),
{
    assert(on1.len() == string_views(on1).len());
    assert(on2.len() == string_views(on2).len());
    if names_contain(on1, c) {
        let k = choose|k: int| 0 <= k < on1.len() && (#[trigger] on1[k])@ == c;
        assert(string_views(on1)[k] == string_views(on2)[k]);
        assert(on2[k]@ == c);
    }
    if names_contain(on2, c) {
        let k = choose|k: int| 0 <= k < on2.len() && (#[trigger] on2[k])@ == c;
        assert(string_views(on1)[k] == string_views(on2)[k]);
        assert(on1[k]@ == c);
    }
}

/// The first missing join column depends on the contents alone.
proof fn lemma_missing_same(
    l1: Seq<(String, Vec<Value>)>,
    l2: Seq<(String, Vec<Value>)>,
    r1: Seq<(String, Vec<Value>)>,
    r2: Seq<(String, Vec<Value>)>,
    on1: Seq<String>,
    on2: Seq<String>,
)
    requires
        table_view(l1) == table_view(l2),
        table_view(r1) == table_view(r2),
        string_views(on1) == string_views(on2),
    ensures
        first_missing(l1, r1, on1) == first_missing(l2, r2, on2),
    decreases on1.len(),
{
    assert(on1.len() == string_views(on1).len());
    assert(on2.len() == string_views(on2).len());
    if on1.len() > 0 {
        assert(string_views(on1.drop_last()) =~= string_views(on2.drop_last())) by {
            assert forall|k: int| 0 <= k < on1.len() - 1 implies #[trigger] string_views(on1.drop_last())[k]
                == string_views(on2.drop_last())[k] by {
                assert(string_views(on1)[k] == string_views(on2)[k]);
            }
        }
        lemma_missing_same(l1, l2, r1, r2, on1.drop_last(), on2.drop_last());
        let c = on1.last()@;
        assert(string_views(on1)[on1.len() - 1] == string_views(on2)[on1.len() - 1]);
        lemma_pos_same(l1, l2, c);
        lemma_pos_same(r1, r2, c);
    }
}

/// Without a missing join column every join column is in both tables.
proof fn lemma_none_missing(left: Seq<(String, Vec<Value>)>, right: Seq<(String, Vec<Value>)>, on: Seq<String>)
    requires
        first_missing(left, right, on) is None,
    ensures
        forall|k: int| 0 <= k < on.len() ==> column_pos(left, (#[trigger] on[k])@) >= 0 && column_pos(right, on[k]@) >= 0,
    decreases on.len(),
{
    if on.len() > 0 {
        lemma_none_missing(left, right, on.drop_last());
        assert forall|k: int| 0 <= k < on.len() implies column_pos(left, (#[trigger] on[k])@) >= 0 && column_pos(
            right,
            on[k]@,
        ) >= 0 by {
            if k < on.len() - 1 {
                assert(on[k] == on.drop_last()[k]);
            }
        }
    }
}

/// The keys of a table depend on its content alone.
proof fn lemma_keys_same(
    a: Seq<(String, Vec<Value>)>,
    b: Seq<(String, Vec<Value>)>,
    on1: Seq<String>,
    on2: Seq<String>,
    n: nat,
)
    requires
        table_view(a) == table_view(b),
        string_views(on1) == string_views(on2),
        table_rows(a, n),
        forall|k: int| 0 <= k < on1.len() ==> column_pos(a, (#[trigger] on1[k])@) >= 0,
    ensures
        keys_of(a, on1, n) == keys_of(b, on2, n),
{
    assert(on1.len() == string_views(on1).len());
    assert(on2.len() == string_views(on2).len());
    assert forall|i: int| 0 <= i < n implies #[trigger] key_of(a, on1, i) == key_of(b, on2, i) by {
        assert forall|j: int| 0 <= j < on1.len() implies #[trigger] key_of(a, on1, i)[j] == key_of(b, on2, i)[j] by {
            let c = on1[j]@;
            assert(string_views(on1)[j] == string_views(on2)[j]);
            lemma_pos_same(a, b, c);
            lemma_column_pos(a, c);
            let p = column_pos(a, c);
            lemma_values_same(a, b, p);
            assert(value_views(a[p].1@)[i] == a[p].1@[i]@);
            assert(value_views(b[p].1@)[i] == b[p].1@[i]@);
        }
        assert(key_of(a, on1, i) =~= key_of(b, on2, i));
    }
    assert(keys_of(a, on1, n) =~= keys_of(b, on2, n));
}

/// The right columns of a merge depend on the contents alone.
proof fn lemma_right_same(
    l1: Seq<(String, Vec<Value>)>,
    l2: Seq<(String, Vec<Value>)>,
    ra1: Seq<(String, Vec<Value>)>,
    ra2: Seq<(String, Vec<Value>)>,
    m: int,
    on1: Seq<String>,
    on2: Seq<String>,
    pairs: Seq<RowPair>,
    suffix: Seq<char>,
)
    requires
        table_view(l1) == table_view(l2),
        table_view(ra1) == table_view(ra2),
        string_views(on1) == string_views(on2),
        0 <= m <= ra1.len(),
    ensures
        right_columns(l1, ra1, ra1.take(m), on1, pairs, suffix) == right_columns(l2, ra2, ra2.take(m), on2, pairs, suffix),
    decreases m,
{
    lemma_pos_same(ra1, ra2, Seq::empty());
    if m > 0 {
        assert(ra1.take(m).drop_last() =~= ra1.take(m - 1));
        assert(ra2.take(m).drop_last() =~= ra2.take(m - 1));
        lemma_right_same(l1, l2, ra1, ra2, m - 1, on1, on2, pairs, suffix);
        lemma_values_same(ra1, ra2, m - 1);
        let c = ra1[m - 1].0@;
        assert(ra1.take(m).last() == ra1[m - 1]);
        assert(ra2.take(m).last() == ra2[m - 1]);
        lemma_contain_same(on1, on2, c);
        lemma_pos_same(l1, l2, c);
        lemma_pos_same(ra1, ra2, c);
        lemma_column_pos(ra1, c);
        lemma_values_same(ra1, ra2, column_pos(ra1, c));
    }
}

/// The result of a merge depends on the tables' contents alone: it is
/// [`merged_view`] of them.
pub proof fn lemma_merged_view(
    left: Seq<(String, Vec<Value>)>,
    ln: nat,
    right: Seq<(String, Vec<Value>)>,
    rn: nat,
    on: Seq<String>,
    how: Seq<char>,
    suffixes: (Seq<char>, Seq<char>),
)
    requires
        table_rows(left, ln),
        table_rows(right, rn),
    ensures
        merged_view(table_view(left), ln, table_view(right), rn, string_views(on), how, suffixes) == merge_result(
            left,
            ln,
            right,
            rn,
            on,
            how,
            suffixes,
        ),
{
    let lv = table_view(left);
    let rv = table_view(right);
    assert(table_view(left) == lv);
    assert(table_view(right) == rv);
    assert(string_views(on) == string_views(on));
    let l2 = table_of_view(lv);
    let r2 = table_of_view(rv);
    let on2 = strings_of(string_views(on));
    assert(table_view(l2) == lv);
    assert(table_view(r2) == rv);
    assert(string_views(on2) == string_views(on));
    lemma_missing_same(left, l2, right, r2, on, on2);
    if first_missing(left, right, on) is None {
        lemma_none_missing(left, right, on);
        lemma_keys_same(left, l2, on, on2, ln);
        lemma_keys_same(right, r2, on, on2, rn);
        let kind = merge_kind(how);
        if kind is Some {
            let pairs = merge_pairs(kind.unwrap(), keys_of(left, on, ln), keys_of(right, on, rn));
            lemma_pos_same(left, l2, Seq::empty());
            assert forall|k: int| 0 <= k < left.len() implies #[trigger] left_columns(left, right, on, pairs, suffixes.0)[k]
                == left_columns(l2, r2, on2, pairs, suffixes.0)[k] by {
                lemma_values_same(left, l2, k);
                let c = left[k].0@;
                lemma_contain_same(on, on2, c);
                lemma_pos_same(right, r2, c);
                lemma_pos_same(left, l2, c);
                lemma_column_pos(left, c);
                lemma_values_same(left, l2, column_pos(left, c));
            }
            assert(left_columns(left, right, on, pairs, suffixes.0) =~= left_columns(l2, r2, on2, pairs, suffixes.0));
            lemma_pos_same(right, r2, Seq::empty());
            lemma_right_same(left, l2, right, r2, right.len() as int, on, on2, pairs, suffixes.1);
            assert(right.take(right.len() as int) =~= right);
            assert(r2.take(r2.len() as int) =~= r2);
        }
    }
}

} // verus!
