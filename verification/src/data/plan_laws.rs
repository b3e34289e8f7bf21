//! What the plan optimizer guarantees of every plan: no two limits stand
//! next to each other, the other operations stay as they were, in their
//! order, and optimizing twice changes nothing more.

use vstd::prelude::*;

use super::lazy::{flush, merge_state, merged_limits, optimized, LazyOp};

verus! {

/// The operation is a limit.
pub open spec fn is_limit(op: LazyOp) -> bool {
    op is Limit
}

/// No two limits of the plan stand next to each other.
pub open spec fn no_adjacent_limits(s: Seq<LazyOp>) -> bool {
    forall|i: int| 0 <= i < s.len() - 1 ==> !(is_limit(#[trigger] s[i]) && is_limit(s[i + 1]))
}

/// The operations of a plan other than limits, in order.
pub open spec fn non_limits(s: Seq<LazyOp>) -> Seq<LazyOp>
    decreases s.len(),
{
    if s.len() == 0 {
        Seq::empty()
    } else if is_limit(s.last()) {
        non_limits(s.drop_last())
    } else {
        non_limits(s.drop_last()).push(s.last())
    }
}

proof fn lemma_non_limits_push_limit(s: Seq<LazyOp>, n: usize)
    ensures
        non_limits(s.push(LazyOp::Limit(n))) == non_limits(s),
{
    assert(s.push(LazyOp::Limit(n)).drop_last() =~= s);
}

proof fn lemma_merge_state(s: Seq<LazyOp>)
    ensures
        no_adjacent_limits(merge_state(s).0),
        merge_state(s).0.len() > 0 ==> !is_limit(merge_state(s).0.last()),
        non_limits(merge_state(s).0) == non_limits(s),
    decreases s.len(),
{
    if s.len() > 0 {
        let st = merge_state(s.drop_last());
        lemma_merge_state(s.drop_last());
        match s.last() {
            LazyOp::Limit(n) => {
                assert(s.drop_last().push(s.last()) =~= s);
            },
            other => {
                let fl = flush(st);
                assert(non_limits(fl) == non_limits(st.0)) by {
                    if st.1 is Some {
                        lemma_non_limits_push_limit(st.0, st.1->0);
                    }
                }
                assert(fl.push(other).drop_last() =~= fl);
                assert(s.drop_last().push(s.last()) =~= s);
                let out = fl.push(other);
                assert forall|i: int| 0 <= i < out.len() - 1 implies !(is_limit(#[trigger] out[i]) && is_limit(
                    out[i + 1],
                )) by {
                    if i < out.len() - 2 {
                        assert(out[i] == fl[i]);
                        assert(out[i + 1] == fl[i + 1]);
                        if st.1 is Some && i + 1 == fl.len() - 1 {
                            assert(fl[i] == st.0[i]);
                            assert(st.0.len() > 0 ==> st.0[st.0.len() - 1] == st.0.last());
                        } else if st.1 is Some {
                            assert(fl[i] == st.0[i]);
                            assert(fl[i + 1] == st.0[i + 1]);
                        }
                    }
                }
            },
        }
    }
}

/// Limit merging keeps every other operation, in order, and leaves no two
/// limits next to each other.
proof fn lemma_merged_limits(s: Seq<LazyOp>)
    ensures
        no_adjacent_limits(merged_limits(s)),
        non_limits(merged_limits(s)) == non_limits(s),
{
    let st = merge_state(s);
    lemma_merge_state(s);
    if st.1 is Some {
        let out = merged_limits(s);
        assert(out.drop_last() =~= st.0);
        lemma_non_limits_push_limit(st.0, st.1->0);
        assert forall|i: int| 0 <= i < out.len() - 1 implies !(is_limit(#[trigger] out[i]) && is_limit(
            out[i + 1],
        )) by {
            assert(out[i] == st.0[i]);
            if i + 1 < st.0.len() {
                assert(out[i + 1] == st.0[i + 1]);
            } else {
                assert(st.0[i] == st.0.last());
            }
        }
    }
}

/// The optimized plan holds every operation of the given plan other than
/// its limits, in the same order, and no two limits next to each other.
pub proof fn lemma_optimize_merges_limits(ops: Seq<LazyOp>)
    ensures
        no_adjacent_limits(optimized(ops)),
        non_limits(optimized(ops)) == non_limits(ops),
{
    lemma_merged_limits(ops);
}

/// Optimizing an optimized plan changes nothing.
pub proof fn lemma_optimize_idempotent(ops: Seq<LazyOp>)
    ensures
        optimized(optimized(ops)) == optimized(ops),
{
    lemma_merged_limits(ops);
    lemma_merged_no_adjacent(optimized(ops));
}

proof fn lemma_merge_state_no_adjacent(s: Seq<LazyOp>)
    requires
        no_adjacent_limits(s),
    ensures
        merge_state(s) == (match s.last() {
            LazyOp::Limit(n) => (s.drop_last(), Some(n)),
            _ => (s, None::<usize>),
        }) || s.len() == 0,
        s.len() == 0 ==> merge_state(s) == (s, None::<usize>),
    decreases s.len(),
{
    if s.len() == 0 {
        assert(s =~= Seq::<LazyOp>::empty());
    } else {
        let t = s.drop_last();
        assert(no_adjacent_limits(t)) by {
            assert forall|i: int| 0 <= i < t.len() - 1 implies !(is_limit(#[trigger] t[i]) && is_limit(t[i + 1])) by {
                assert(t[i] == s[i]);
                assert(t[i + 1] == s[i + 1]);
            }
        }
        lemma_merge_state_no_adjacent(t);
        match s.last() {
            LazyOp::Limit(n) => {
                if t.len() > 0 {
                    assert(s[s.len() - 2] == t.last());
                    assert(!is_limit(t.last()));
                }
            },
            _ => {
                if t.len() > 0 {
                    match t.last() {
                        LazyOp::Limit(m) => {
                            assert(t.drop_last().push(LazyOp::Limit(m)) =~= t);
                        },
                        _ => {},
                    }
                }
                assert(t.push(s.last()) =~= s);
            },
        }
    }
}

proof fn lemma_merged_no_adjacent(s: Seq<LazyOp>)
    requires
        no_adjacent_limits(s),
    ensures
        merged_limits(s) == s,
{
    lemma_merge_state_no_adjacent(s);
    if s.len() > 0 {
        match s.last() {
            LazyOp::Limit(n) => {
                assert(s.drop_last().push(LazyOp::Limit(n)) =~= s);
            },
            _ => {},
        }
    }
}

} // verus!
