//! What merging, reshaping and windowing guarantee of their results.

use vstd::prelude::*;

use super::grouped::row_key;
use super::join::RowPair;
use super::lazy::WindowFunc;
use super::merge::{key_matches, left_led, unmatched_right_rows};
use super::reshape::distinct_values;
use super::value::{Value, ValueModel};
use super::window::{rows_with_key, window_at};

verus! {

/// The matches of a key are exactly the positions holding it.
pub proof fn lemma_key_matches(keys: Seq<Seq<ValueModel>>, k: Seq<ValueModel>)
    requires
        keys.len() <= usize::MAX,
    ensures
        forall|q: int|
            0 <= q < key_matches(keys, k).len() ==> (#[trigger] key_matches(keys, k)[q] as int) < keys.len() && keys[key_matches(
                keys,
                k,
            )[q] as int] == k,
        forall|j: int| 0 <= j < keys.len() ==> (key_matches(keys, k).contains(j as usize) <==> #[trigger] keys[j] == k),
    decreases keys.len(),
{
    if keys.len() > 0 {
        let d = keys.drop_last();
        lemma_key_matches(d, k);
        let m = key_matches(d, k);
        let km = key_matches(keys, k);
        let last = (keys.len() - 1) as usize;
        assert(keys.last() == k ==> km == m.push(last));
        assert(keys.last() != k ==> km == m);
        assert forall|j: int| 0 <= j < keys.len() implies (km.contains(j as usize) <==> #[trigger] keys[j] == k) by {
            if km.contains(j as usize) {
                let q = choose|q: int| 0 <= q < km.len() && km[q] == j as usize;
                if q < m.len() {
                    assert(km[q] == m[q]);
                    assert((m[q] as int) < d.len());
                    assert(d[j] == keys[j]);
                } else {
                    assert(keys.last() == k && km[q] == last);
                }
            }
            if keys[j] == k {
                if j < keys.len() - 1 {
                    assert(d[j] == keys[j]);
                    assert(m.contains(j as usize));
                    let q = choose|q: int| 0 <= q < m.len() && m[q] == j as usize;
                    assert(km[q] == m[q]);
                } else {
                    assert(km[m.len() as int] == last);
                }
            }
        }
        assert forall|q: int| 0 <= q < key_matches(keys, k).len() implies (#[trigger] key_matches(keys, k)[q] as int)
            < keys.len() && keys[key_matches(keys, k)[q] as int] == k by {
            if q < m.len() {
                assert(key_matches(keys, k)[q] == m[q]);
                assert(keys[m[q] as int] == d[m[q] as int]);
            }
        }
    }
}

/// Left row `i` appears in the pairs.
pub open spec fn has_left_row(pairs: Seq<RowPair>, i: int) -> bool {
    exists|p: int| 0 <= p < pairs.len() && (#[trigger] pairs[p]).0 == Some(i as usize)
}

/// Right row `j` appears in the pairs.
pub open spec fn has_right_row(pairs: Seq<RowPair>, j: int) -> bool {
    exists|p: int| 0 <= p < pairs.len() && (#[trigger] pairs[p]).1 == Some(j as usize)
}

/// A merge led by the left rows that keeps unmatched ones keeps every left
/// row, and every right row that some left row shares a key with.
pub proof fn lemma_left_led_keeps_rows(lk: Seq<Seq<ValueModel>>, rk: Seq<Seq<ValueModel>>)
    requires
        lk.len() <= usize::MAX,
        rk.len() <= usize::MAX,
    ensures
        forall|i: int| 0 <= i < lk.len() ==> #[trigger] has_left_row(left_led(lk, rk, true), i),
        forall|i: int, j: int|
            0 <= i < lk.len() && 0 <= j < rk.len() && lk[i] == rk[j] ==> #[trigger] has_right_row(
                left_led(lk, rk, true),
                j,
            ) && #[trigger] lk[i] == lk[i],
    decreases lk.len(),
{
    if lk.len() > 0 {
        let d = lk.drop_last();
        lemma_left_led_keeps_rows(d, rk);
        lemma_key_matches(rk, lk.last());
        let prev = left_led(d, rk, true);
        let all = left_led(lk, rk, true);
        let last = (lk.len() - 1) as usize;
        let m = key_matches(rk, lk.last());
        assert(forall|p: int| 0 <= p < prev.len() ==> all[p] == prev[p]);
        assert forall|i: int| 0 <= i < lk.len() implies #[trigger] has_left_row(all, i) by {
            if i < lk.len() - 1 {
                assert(has_left_row(prev, i));
                let p = choose|p: int| 0 <= p < prev.len() && (#[trigger] prev[p]).0 == Some(i as usize);
                assert(all[p] == prev[p]);
            } else if m.len() > 0 {
                assert(all[prev.len() as int] == (Some(last), Some(m[0])));
            } else {
                assert(all[prev.len() as int] == (Some(last), None::<usize>));
            }
        }
        assert forall|i: int, j: int|
            0 <= i < lk.len() && 0 <= j < rk.len() && lk[i] == rk[j] implies #[trigger] has_right_row(all, j)
            && #[trigger] lk[i] == lk[i] by {
            if i < lk.len() - 1 {
                assert(d[i] == lk[i]);
                assert(has_right_row(prev, j));
                let p = choose|p: int| 0 <= p < prev.len() && (#[trigger] prev[p]).1 == Some(j as usize);
                assert(all[p] == prev[p]);
            } else {
                assert(m.contains(j as usize));
                let q = choose|q: int| 0 <= q < m.len() && m[q] == j as usize;
                assert(all[prev.len() + q] == (Some(last), Some(m[q])));
            }
        }
    }
}

/// Every pair of an inner merge joins a left and a right row of the same
/// key.
pub proof fn lemma_inner_pairs_match(lk: Seq<Seq<ValueModel>>, rk: Seq<Seq<ValueModel>>)
    requires
        lk.len() <= usize::MAX,
        rk.len() <= usize::MAX,
    ensures
        forall|p: int|
            0 <= p < left_led(lk, rk, false).len() ==> ((#[trigger] left_led(lk, rk, false)[p]) matches (
                Some(i),
                Some(j),
            ) && (i as int) < lk.len() && (j as int) < rk.len() && lk[i as int] == rk[j as int]),
    decreases lk.len(),
{
    if lk.len() > 0 {
        let d = lk.drop_last();
        lemma_inner_pairs_match(d, rk);
        lemma_key_matches(rk, lk.last());
        let prev = left_led(d, rk, false);
        let all = left_led(lk, rk, false);
        let m = key_matches(rk, lk.last());
        assert forall|p: int| 0 <= p < all.len() implies ((#[trigger] all[p]) matches (Some(i), Some(j)) && (i as int)
            < lk.len() && (j as int) < rk.len() && lk[i as int] == rk[j as int]) by {
            if m.len() == 0 {
                assert(all == prev);
            }
            if p < prev.len() {
                assert(all[p] == prev[p]);
                let i = prev[p].0.unwrap();
                assert(d[i as int] == lk[i as int]);
            } else {
                let q = p - prev.len();
                assert(all == prev + m.map_values(|j: usize| (Some((lk.len() - 1) as usize), Some(j))));
                assert(all[p] == (Some((lk.len() - 1) as usize), Some(m[q])));
                assert(lk.last() == lk[lk.len() - 1]);
            }
        }
    }
}

/// An outer merge keeps every row of both tables.
pub proof fn lemma_outer_keeps_all_rows(lk: Seq<Seq<ValueModel>>, rk: Seq<Seq<ValueModel>>)
    requires
        lk.len() <= usize::MAX,
        rk.len() <= usize::MAX,
    ensures
        forall|i: int| 0 <= i < lk.len() ==> #[trigger] has_left_row(left_led(lk, rk, true) + unmatched_right_rows(lk, rk), i),
        forall|j: int| 0 <= j < rk.len() ==> #[trigger] has_right_row(left_led(lk, rk, true) + unmatched_right_rows(lk, rk), j),
{
    let a = left_led(lk, rk, true);
    let all = a + unmatched_right_rows(lk, rk);
    lemma_left_led_keeps_rows(lk, rk);
    lemma_unmatched_rows(lk, rk);
    assert forall|i: int| 0 <= i < lk.len() implies #[trigger] has_left_row(all, i) by {
        assert(has_left_row(a, i));
        let p = choose|p: int| 0 <= p < a.len() && (#[trigger] a[p]).0 == Some(i as usize);
        assert(all[p] == a[p]);
    }
    assert forall|j: int| 0 <= j < rk.len() implies #[trigger] has_right_row(all, j) by {
        lemma_key_matches(lk, rk[j]);
        if key_matches(lk, rk[j]).len() > 0 {
            let i = key_matches(lk, rk[j])[0] as int;
            assert(lk[i] == rk[j] && lk[i] == lk[i]);
            assert(has_right_row(a, j));
            let p = choose|p: int| 0 <= p < a.len() && (#[trigger] a[p]).1 == Some(j as usize);
            assert(all[p] == a[p]);
        } else {
            assert(has_right_row(unmatched_right_rows(lk, rk), j));
            let u = unmatched_right_rows(lk, rk);
            let p = choose|p: int| 0 <= p < u.len() && (#[trigger] u[p]).1 == Some(j as usize);
            assert(all[a.len() + p] == u[p]);
        }
    }
}

/// The right rows without a match are each listed.
proof fn lemma_unmatched_rows(lk: Seq<Seq<ValueModel>>, rk: Seq<Seq<ValueModel>>)
    requires
        rk.len() <= usize::MAX,
    ensures
        forall|j: int|
            0 <= j < rk.len() && key_matches(lk, rk[j]).len() == 0 ==> #[trigger] has_right_row(unmatched_right_rows(lk, rk), j),
    decreases rk.len(),
{
    if rk.len() > 0 {
        let d = rk.drop_last();
        lemma_unmatched_rows(lk, d);
        let prev = unmatched_right_rows(lk, d);
        let all = unmatched_right_rows(lk, rk);
        assert forall|j: int| 0 <= j < rk.len() && key_matches(lk, rk[j]).len() == 0 implies #[trigger] has_right_row(
            all,
            j,
        ) by {
            if j < rk.len() - 1 {
                assert(d[j] == rk[j]);
                assert(has_right_row(prev, j));
                let p = choose|p: int| 0 <= p < prev.len() && (#[trigger] prev[p]).1 == Some(j as usize);
                assert(all[p] == prev[p]);
            } else {
                assert(all[prev.len() as int] == (None::<usize>, Some(j as usize)));
            }
        }
    }
}

/// The distinct values of a column hold each of its first `n` values once.
pub proof fn lemma_distinct_values(col: Seq<ValueModel>, n: nat)
    requires
        n <= col.len(),
    ensures
        forall|a: int, b: int|
            0 <= a < b < distinct_values(col, n).len() ==> #[trigger] distinct_values(col, n)[a] != #[trigger] distinct_values(
                col,
                n,
            )[b],
        forall|i: int| 0 <= i < n ==> #[trigger] distinct_values(col, n).contains(col[i]),
    decreases n,
{
    if n > 0 {
        lemma_distinct_values(col, (n - 1) as nat);
        let d = distinct_values(col, (n - 1) as nat);
        let all = distinct_values(col, n);
        assert forall|i: int| 0 <= i < n implies #[trigger] all.contains(col[i]) by {
            if i < n - 1 {
                assert(d.contains(col[i]));
                let q = choose|q: int| 0 <= q < d.len() && d[q] == col[i];
                if !d.contains(col[n - 1]) {
                    assert(all[q] == d[q]);
                }
            } else if !d.contains(col[n - 1]) {
                assert(all[d.len() as int] == col[n - 1]);
            }
        }
    }
}

/// Without partition columns a row number is the row's place, counted from
/// one.
pub proof fn lemma_row_number_without_partitions(col: Seq<ValueModel>, n: nat, i: int)
    requires
        0 <= i < n,
    ensures
        window_at(WindowFunc::RowNumber, col, Seq::empty(), n, i) == ValueModel::Int((i + 1) as i64),
{
    lemma_rows_without_partitions(i as nat);
}

/// Without partition columns every row is in the one partition.
proof fn lemma_rows_without_partitions(i: nat)
    ensures
        rows_with_key(Seq::<Vec<Value>>::empty(), row_key(Seq::<Vec<Value>>::empty(), i as int), i) == i,
    decreases i,
{
    if i > 0 {
        let e: Seq<Vec<Value>> = Seq::empty();
        assert(row_key(e, i as int) =~= row_key(e, i - 1));
        lemma_rows_without_partitions((i - 1) as nat);
    }
}

} // verus!
