//! A stable selection sort by descending integer key.

use vstd::prelude::*;

verus! {

/// The views of a sequence.
pub open spec fn vs<T: View>(s: Seq<T>) -> Seq<T::V> {
    s.map_values(|t: T| t@)
}

/// `s` is ordered by `key`, largest first.
pub open spec fn sorted_desc<A>(s: Seq<A>, key: spec_fn(A) -> nat) -> bool {
    forall|i: int, j: int| 0 <= i < j < s.len() ==> key(s[i]) >= key(s[j])
}

/// Sorts `items` by descending key; `keys[i]` is the key of `items[i]`.
/// Among equal keys the earlier item comes first.
pub fn sort_desc_by_key<T: View>(items: Vec<T>, keys: Vec<usize>, Ghost(key): Ghost<spec_fn(T::V) -> nat>) -> (r: Vec<T>)
    requires
        keys@.len() == items@.len(),
        forall|i: int| 0 <= i < items@.len() ==> keys@[i] as nat == key(items@[i]@),
    ensures
        vs(r@).to_multiset() == vs(items@).to_multiset(),
        sorted_desc(vs(r@), key),
{
    broadcast use vstd::seq_lib::group_to_multiset_ensures, vstd::multiset::group_multiset_axioms;

    let ghost all = vs(items@);
    let mut pool = items;
    let mut ks = keys;
    let mut out: Vec<T> = Vec::new();
    assert(vs(out@) =~= Seq::<T::V>::empty());
    assert(vs(out@).to_multiset().add(vs(pool@).to_multiset()) =~= all.to_multiset());
    while pool.len() > 0
        invariant
            ks@.len() == pool@.len(),
            forall|i: int| 0 <= i < pool@.len() ==> ks@[i] as nat == key(pool@[i]@),
            vs(out@).to_multiset().add(vs(pool@).to_multiset()) == all.to_multiset(),
            sorted_desc(vs(out@), key),
            forall|i: int, j: int|
                0 <= i < out@.len() && 0 <= j < pool@.len() ==> key(out@[i]@) >= key(pool@[j]@),
        decreases pool.len(),
    {
        let mut m: usize = 0;
        let mut j: usize = 1;
        while j < pool.len()
            invariant
                ks@.len() == pool@.len(),
                m < j <= pool@.len(),
                forall|k: int| 0 <= k < j ==> ks@[m as int] >= #[trigger] ks@[k],
            decreases pool.len() - j,
        {
            if ks[j] > ks[m] {
                m = j;
            }
            j = j + 1;
        }
        let ghost out_before = vs(out@);
        let ghost pool_before = vs(pool@);
        let ghost pool_items = pool@;
        let ghost ks_before = ks@;
        let x = pool.remove(m);
        let _k = ks.remove(m);
        assert(vs(pool@) =~= pool_before.remove(m as int));
        let ghost xv = x@;
        out.push(x);
        assert(vs(out@) =~= out_before.push(xv));
        proof {
            pool_before.to_multiset_ensures();
            out_before.to_multiset_ensures();
            assert(pool_before[m as int] == xv);
            assert(pool_before.contains(xv));
            assert(out_before.push(xv).to_multiset() =~= out_before.to_multiset().insert(xv));
            assert(pool_before.remove(m as int).to_multiset() =~= pool_before.to_multiset().remove(
                xv,
            ));
            assert(out_before.push(xv).to_multiset().add(pool_before.remove(m as int).to_multiset())
                =~= out_before.to_multiset().add(pool_before.to_multiset()));
            assert forall|j: int| 0 <= j < pool@.len() implies key(xv) >= key(#[trigger] pool@[j]@) by {
                let jj = if j < m {
                    j
                } else {
                    j + 1
                };
                assert(pool@[j] == pool_items[jj]);
                assert(ks_before[m as int] >= ks_before[jj]);
            }
            assert forall|i: int, j: int|
                0 <= i < out@.len() && 0 <= j < pool@.len() implies key(out@[i]@) >= key(
                pool@[j]@,
            ) by {
                let jj = if j < m {
                    j
                } else {
                    j + 1
                };
                assert(pool@[j] == pool_items[jj]);
            }
            assert forall|i: int, j: int| 0 <= i < j < vs(out@).len() implies key(vs(out@)[i]) >= key(
                vs(out@)[j],
            ) by {
                if j == out@.len() - 1 {
                    assert(pool_items[m as int]@ == xv);
                }
            }
        }
    }
    assert(vs(pool@) =~= Seq::<T::V>::empty());
    assert(vs(pool@).to_multiset() =~= vstd::multiset::Multiset::empty());
    assert(vs(out@).to_multiset() =~= vs(out@).to_multiset().add(vs(pool@).to_multiset()));
    out
}

} // verus!
