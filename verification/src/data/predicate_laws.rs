//! Properties of predicate evaluation: rows come in ascending order and
//! within the table, a conjunction gives the rows both sides give, and
//! negating twice gives back the same rows.

use vstd::prelude::*;

use super::lazy::FilterPredicate;
use super::predicate::{eval_rows, rows_also_in, rows_in_either, rows_not_in, rows_where, table_rows};
use super::value::{Value, ValueModel};

verus! {

/// The rows are strictly ascending and all below `n`.
pub open spec fn ascending_below(s: Seq<usize>, n: nat) -> bool {
    &&& forall|i: int, j: int| 0 <= i < j < s.len() ==> s[i] < s[j]
    &&& forall|i: int| 0 <= i < s.len() ==> (#[trigger] s[i] as nat) < n
}

proof fn lemma_push_ascending(s: Seq<usize>, x: usize, n: nat)
    requires
        ascending_below(s, x as nat),
        (x as nat) < n,
    ensures
        ascending_below(s.push(x), n),
{
    assert forall|i: int, j: int| 0 <= i < j < s.push(x).len() implies s.push(x)[i] < s.push(x)[j] by {
        if j == s.len() {
            assert(s.push(x)[i] == s[i]);
        } else {
            assert(s.push(x)[i] == s[i]);
            assert(s.push(x)[j] == s[j]);
        }
    }
    assert forall|i: int| 0 <= i < s.push(x).len() implies (#[trigger] s.push(x)[i] as nat) < n by {
        if i < s.len() {
            assert(s.push(x)[i] == s[i]);
        }
    }
}

proof fn lemma_rows_where(col: Seq<ValueModel>, p: FilterPredicate, n: nat)
    requires
        n <= usize::MAX,
    ensures
        ascending_below(rows_where(col, p, n), n),
    decreases n,
{
    if n > 0 {
        lemma_rows_where(col, p, (n - 1) as nat);
        if rows_where(col, p, n) != rows_where(col, p, (n - 1) as nat) {
            lemma_push_ascending(rows_where(col, p, (n - 1) as nat), (n - 1) as usize, n);
        }
    }
}

proof fn lemma_rows_in_either(a: Seq<usize>, b: Seq<usize>, n: nat)
    requires
        n <= usize::MAX,
    ensures
        ascending_below(rows_in_either(a, b, n), n),
        forall|x: usize| #[trigger] rows_in_either(a, b, n).contains(x) <==> (x as nat) < n && (a.contains(x)
            || b.contains(x)),
    decreases n,
{
    if n > 0 {
        let prev = rows_in_either(a, b, (n - 1) as nat);
        lemma_rows_in_either(a, b, (n - 1) as nat);
        if a.contains((n - 1) as usize) || b.contains((n - 1) as usize) {
            lemma_push_ascending(prev, (n - 1) as usize, n);
            let q = prev.push((n - 1) as usize);
            assert forall|x: usize| #[trigger] q.contains(x) <==> (x as nat) < n && (a.contains(x) || b.contains(x)) by {
                if q.contains(x) {
                    let k = choose|k: int| 0 <= k < q.len() && #[trigger] q[k] == x;
                    if k < prev.len() {
                        assert(prev[k] == x);
                        assert(prev.contains(x));
                    }
                }
                if (x as nat) < n - 1 && (a.contains(x) || b.contains(x)) {
                    assert(prev.contains(x));
                    let k = choose|k: int| 0 <= k < prev.len() && #[trigger] prev[k] == x;
                    assert(q[k] == x);
                }
                if x == (n - 1) as usize {
                    assert(q[prev.len() as int] == x);
                }
            }
        } else {
            assert forall|x: usize| #[trigger] prev.contains(x) <==> (x as nat) < n && (a.contains(x) || b.contains(x)) by {
            }
            lemma_ascending_weaken(prev, (n - 1) as nat, n);
        }
    }
}

proof fn lemma_ascending_weaken(s: Seq<usize>, m: nat, n: nat)
    requires
        ascending_below(s, m),
        m <= n,
    ensures
        ascending_below(s, n),
{
}

proof fn lemma_rows_not_in(a: Seq<usize>, n: nat)
    requires
        n <= usize::MAX,
    ensures
        ascending_below(rows_not_in(a, n), n),
        forall|x: usize| #[trigger] rows_not_in(a, n).contains(x) <==> (x as nat) < n && !a.contains(x),
    decreases n,
{
    if n > 0 {
        let prev = rows_not_in(a, (n - 1) as nat);
        lemma_rows_not_in(a, (n - 1) as nat);
        if !a.contains((n - 1) as usize) {
            lemma_push_ascending(prev, (n - 1) as usize, n);
            let q = prev.push((n - 1) as usize);
            assert forall|x: usize| #[trigger] q.contains(x) <==> (x as nat) < n && !a.contains(x) by {
                if q.contains(x) {
                    let k = choose|k: int| 0 <= k < q.len() && #[trigger] q[k] == x;
                    if k < prev.len() {
                        assert(prev[k] == x);
                        assert(prev.contains(x));
                    }
                }
                if (x as nat) < n - 1 && !a.contains(x) {
                    assert(prev.contains(x));
                    let k = choose|k: int| 0 <= k < prev.len() && #[trigger] prev[k] == x;
                    assert(q[k] == x);
                }
                if x == (n - 1) as usize {
                    assert(q[prev.len() as int] == x);
                }
            }
        } else {
            lemma_ascending_weaken(prev, (n - 1) as nat, n);
        }
    }
}

proof fn lemma_rows_also_in(b: Seq<usize>, a: Seq<usize>, n: nat)
    requires
        ascending_below(b, n),
    ensures
        ascending_below(rows_also_in(b, a), n),
        forall|k: int| 0 <= k < rows_also_in(b, a).len() ==> b.contains(#[trigger] rows_also_in(b, a)[k]),
    decreases b.len(),
{
    if b.len() > 0 {
        let b0 = b.drop_last();
        assert(ascending_below(b0, n)) by {
            assert forall|i: int| 0 <= i < b0.len() implies (#[trigger] b0[i] as nat) < n by {
                assert(b0[i] == b[i]);
            }
            assert forall|i: int, j: int| 0 <= i < j < b0.len() implies b0[i] < b0[j] by {
                assert(b0[i] == b[i]);
                assert(b0[j] == b[j]);
            }
        }
        lemma_rows_also_in(b0, a, n);
        let prev = rows_also_in(b0, a);
        assert forall|k: int| 0 <= k < prev.len() implies b.contains(#[trigger] prev[k]) by {
            let w = choose|w: int| 0 <= w < b0.len() && #[trigger] b0[w] == prev[k];
            assert(b[w] == prev[k]);
        }
        if a.contains(b.last()) {
            assert(ascending_below(prev, b.last() as nat)) by {
                assert forall|k: int| 0 <= k < prev.len() implies (#[trigger] prev[k] as nat) < b.last() as nat by {
                    let w = choose|w: int| 0 <= w < b0.len() && #[trigger] b0[w] == prev[k];
                    assert(b[w] == prev[k]);
                    assert(b[w] < b[b.len() - 1]);
                }
            }
            lemma_push_ascending(prev, b.last(), n);
            assert forall|k: int| 0 <= k < prev.push(b.last()).len() implies b.contains(#[trigger] prev.push(b.last())[k]) by {
                if k < prev.len() {
                    assert(prev.push(b.last())[k] == prev[k]);
                } else {
                    assert(b[b.len() - 1] == b.last());
                }
            }
        }
    }
}

/// Every predicate gives rows in strictly ascending order, all within the
/// table; `And` gives a part of the rows of its right side.
pub proof fn lemma_rows_ascending(cols: Seq<(String, Vec<Value>)>, n: nat, p: FilterPredicate)
    requires
        table_rows(cols, n),
        n <= usize::MAX,
    ensures
        eval_rows(cols, n, p) matches Ok(rows) ==> ascending_below(rows, n),
    decreases p,
{
    match p {
        FilterPredicate::And(l, r) => {
            lemma_rows_ascending(cols, n, *l);
            lemma_rows_ascending(cols, n, *r);
            if let (Ok(a), Ok(b)) = (eval_rows(cols, n, *l), eval_rows(cols, n, *r)) {
                lemma_rows_also_in(b, a, n);
            }
        },
        FilterPredicate::Or(l, r) => {
            if let (Ok(a), Ok(b)) = (eval_rows(cols, n, *l), eval_rows(cols, n, *r)) {
                lemma_rows_in_either(a, b, n);
            }
        },
        FilterPredicate::Not(inner) => {
            if let Ok(a) = eval_rows(cols, n, *inner) {
                lemma_rows_not_in(a, n);
            }
        },
        _ => {
            if let Ok(_) = eval_rows(cols, n, p) {
                let k = super::predicate::column_pos(cols, super::predicate::tested_column(p).unwrap());
                lemma_rows_where(super::value::value_views(cols[k].1@), p, n);
            }
        },
    }
}

/// Selecting rows below `m` by membership gives the same rows for lists that
/// agree on the rows below `m`.
proof fn lemma_either_pointwise(a: Seq<usize>, b: Seq<usize>, c: Seq<usize>, m: nat)
    requires
        m <= usize::MAX,
        forall|x: usize| (x as nat) < m ==> (a.contains(x) || b.contains(x)) == #[trigger] c.contains(x),
    ensures
        rows_in_either(a, b, m) == rows_in_either(c, Seq::empty(), m),
    decreases m,
{
    if m > 0 {
        let x = (m - 1) as usize;
        assert((x as nat) == m - 1);
        assert((a.contains(x) || b.contains(x)) == c.contains(x));
        assert(!Seq::<usize>::empty().contains(x));
        lemma_either_pointwise(a, b, c, (m - 1) as nat);
    }
}

/// The rows below `m` not in `c` are those in `a`, where `a` holds exactly
/// the rows below `m` that `c` does not.
proof fn lemma_not_in_pointwise(c: Seq<usize>, a: Seq<usize>, m: nat)
    requires
        m <= usize::MAX,
        forall|x: usize| (x as nat) < m ==> !#[trigger] c.contains(x) == a.contains(x),
    ensures
        rows_not_in(c, m) == rows_in_either(a, Seq::empty(), m),
    decreases m,
{
    if m > 0 {
        let x = (m - 1) as usize;
        assert((x as nat) == m - 1);
        assert(!c.contains(x) == a.contains(x));
        assert(!Seq::<usize>::empty().contains(x));
        lemma_not_in_pointwise(c, a, (m - 1) as nat);
    }
}

/// A strictly ascending list of rows below `n` is the list of rows below `n`
/// that it holds.
proof fn lemma_members(a: Seq<usize>, n: nat)
    requires
        n <= usize::MAX,
        ascending_below(a, n),
    ensures
        rows_in_either(a, Seq::empty(), n) == a,
    decreases n,
{
    let e = Seq::<usize>::empty();
    if n == 0 {
        if a.len() > 0 {
            assert((a[0] as nat) < n);
        }
        assert(a =~= e);
    } else if a.len() > 0 && a.last() as nat == n - 1 {
        let a0 = a.drop_last();
        assert(ascending_below(a0, (n - 1) as nat)) by {
            assert forall|i: int| 0 <= i < a0.len() implies (#[trigger] a0[i] as nat) < (n - 1) as nat by {
                assert(a0[i] == a[i]);
                assert(a[i] < a[a.len() - 1]);
            }
            assert forall|i: int, j: int| 0 <= i < j < a0.len() implies a0[i] < a0[j] by {
                assert(a0[i] == a[i]);
                assert(a0[j] == a[j]);
            }
        }
        lemma_members(a0, (n - 1) as nat);
        assert forall|x: usize| (x as nat) < n - 1 implies (a.contains(x) || e.contains(x)) == #[trigger] a0.contains(x) by {
            if a.contains(x) {
                let k = choose|k: int| 0 <= k < a.len() && #[trigger] a[k] == x;
                assert(k != a.len() - 1);
                assert(a0[k] == x);
            }
            if a0.contains(x) {
                let k = choose|k: int| 0 <= k < a0.len() && #[trigger] a0[k] == x;
                assert(a[k] == x);
            }
        }
        lemma_either_pointwise(a, e, a0, (n - 1) as nat);
        assert(a.contains(a.last())) by {
            assert(a[a.len() - 1] == a.last());
        }
        assert(a0.push(a.last()) =~= a);
    } else {
        assert(ascending_below(a, (n - 1) as nat)) by {
            assert forall|i: int| 0 <= i < a.len() implies (#[trigger] a[i] as nat) < (n - 1) as nat by {
                if i < a.len() - 1 {
                    assert(a[i] < a[a.len() - 1]);
                }
                assert((a[a.len() - 1] as nat) < n);
            }
        }
        assert(!a.contains((n - 1) as usize)) by {
            if a.contains((n - 1) as usize) {
                let k = choose|k: int| 0 <= k < a.len() && #[trigger] a[k] == (n - 1) as usize;
                assert((a[k] as nat) < (n - 1) as nat);
            }
        }
        assert(!e.contains((n - 1) as usize));
        lemma_members(a, (n - 1) as nat);
    }
}

/// Negating a predicate twice gives the rows of the predicate itself.
pub proof fn lemma_double_negation(cols: Seq<(String, Vec<Value>)>, n: nat, p: FilterPredicate)
    requires
        table_rows(cols, n),
        n <= usize::MAX,
    ensures
        eval_rows(cols, n, FilterPredicate::Not(Box::new(FilterPredicate::Not(Box::new(p))))) == eval_rows(
            cols,
            n,
            p,
        ),
{
    lemma_rows_ascending(cols, n, p);
    let inner = FilterPredicate::Not(Box::new(p));
    assert(eval_rows(cols, n, inner) == match eval_rows(cols, n, p) {
        Err(e) => Err(e),
        Ok(a) => Ok(rows_not_in(a, n)),
    });
    if let Ok(a) = eval_rows(cols, n, p) {
        lemma_rows_not_in(a, n);
        let once = rows_not_in(a, n);
        assert forall|x: usize| (x as nat) < n implies !#[trigger] once.contains(x) == a.contains(x) by {
        }
        lemma_not_in_pointwise(once, a, n);
        lemma_members(a, n);
    }
}

/// The rows before `n`, in order, that are in both `a` and `b`.
pub open spec fn rows_in_both(a: Seq<usize>, b: Seq<usize>, n: nat) -> Seq<usize>
    decreases n,
{
    if n == 0 {
        Seq::empty()
    } else if a.contains((n - 1) as usize) && b.contains((n - 1) as usize) {
        rows_in_both(a, b, (n - 1) as nat).push((n - 1) as usize)
    } else {
        rows_in_both(a, b, (n - 1) as nat)
    }
}

/// The rows of `b` also in `a` are exactly the rows in both.
proof fn lemma_also_in_members(b: Seq<usize>, a: Seq<usize>)
    ensures
        forall|x: usize| #[trigger] rows_also_in(b, a).contains(x) <==> b.contains(x) && a.contains(x),
    decreases b.len(),
{
    if b.len() > 0 {
        let b0 = b.drop_last();
        lemma_also_in_members(b0, a);
        let prev = rows_also_in(b0, a);
        let c = rows_also_in(b, a);
        assert forall|x: usize| #[trigger] c.contains(x) <==> b.contains(x) && a.contains(x) by {
            if b.contains(x) {
                let k = choose|k: int| 0 <= k < b.len() && #[trigger] b[k] == x;
                if k < b.len() - 1 {
                    assert(b0[k] == x);
                }
            }
            if b0.contains(x) {
                let k = choose|k: int| 0 <= k < b0.len() && #[trigger] b0[k] == x;
                assert(b[k] == x);
            }
            if a.contains(b.last()) {
                assert(c == prev.push(b.last()));
                if prev.contains(x) {
                    let k = choose|k: int| 0 <= k < prev.len() && #[trigger] prev[k] == x;
                    assert(c[k] == x);
                }
                if c.contains(x) {
                    let k = choose|k: int| 0 <= k < c.len() && #[trigger] c[k] == x;
                    if k < prev.len() {
                        assert(prev[k] == x);
                    }
                }
                assert(c[prev.len() as int] == b.last());
                assert(b[b.len() - 1] == b.last());
            } else {
                assert(c == prev);
            }
        }
    }
}

/// The rows below `m` in both `a` and `b` are those in `c`, where `c` holds
/// exactly the rows below `m` that both do.
proof fn lemma_both_pointwise(a: Seq<usize>, b: Seq<usize>, c: Seq<usize>, m: nat)
    requires
        m <= usize::MAX,
        forall|x: usize| (x as nat) < m ==> (a.contains(x) && b.contains(x)) == #[trigger] c.contains(x),
    ensures
        rows_in_both(a, b, m) == rows_in_either(c, Seq::empty(), m),
    decreases m,
{
    if m > 0 {
        let x = (m - 1) as usize;
        assert((x as nat) == m - 1);
        assert((a.contains(x) && b.contains(x)) == c.contains(x));
        assert(!Seq::<usize>::empty().contains(x));
        lemma_both_pointwise(a, b, c, (m - 1) as nat);
    }
}

/// A conjunction of two predicates gives, in ascending order, the rows of
/// the table that both sides give.
pub proof fn lemma_and_rows(cols: Seq<(String, Vec<Value>)>, n: nat, p: FilterPredicate, q: FilterPredicate)
    requires
        table_rows(cols, n),
        n <= usize::MAX,
        eval_rows(cols, n, p) is Ok,
        eval_rows(cols, n, q) is Ok,
    ensures
        eval_rows(cols, n, FilterPredicate::And(Box::new(p), Box::new(q))) == Ok::<Seq<usize>, Seq<char>>(
            rows_in_both(eval_rows(cols, n, p)->Ok_0, eval_rows(cols, n, q)->Ok_0, n),
        ),
{
    let a = eval_rows(cols, n, p)->Ok_0;
    let b = eval_rows(cols, n, q)->Ok_0;
    lemma_rows_ascending(cols, n, p);
    lemma_rows_ascending(cols, n, q);
    let c = rows_also_in(b, a);
    assert(eval_rows(cols, n, FilterPredicate::And(Box::new(p), Box::new(q))) == Ok::<Seq<usize>, Seq<char>>(c));
    lemma_rows_also_in(b, a, n);
    lemma_also_in_members(b, a);
    lemma_members(c, n);
    lemma_both_pointwise(a, b, c, n);
}

} // verus!
