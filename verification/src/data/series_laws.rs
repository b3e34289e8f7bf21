//! What the column operations guarantee across their results.

use vstd::prelude::*;

use super::series::{extreme, filled, null_total, present, running_extremes, shifted};
use super::value::ValueModel;

verus! {

/// Filling the missing values with a present value leaves none missing.
pub proof fn lemma_fillna_leaves_no_nulls(vals: Seq<ValueModel>, v: ValueModel)
    requires
        v != ValueModel::Null,
    ensures
        null_total(filled(vals, v)) == 0,
{
    lemma_no_nulls_counted(filled(vals, v));
}

/// A sequence without missing values counts none.
proof fn lemma_no_nulls_counted(vals: Seq<ValueModel>)
    requires
        forall|i: int| 0 <= i < vals.len() ==> #[trigger] vals[i] != ValueModel::Null,
    ensures
        null_total(vals) == 0,
    decreases vals.len(),
{
    if vals.len() > 0 {
        let d = vals.drop_last();
        assert forall|i: int| 0 <= i < d.len() implies #[trigger] d[i] != ValueModel::Null by {
            assert(d[i] == vals[i]);
        }
        lemma_no_nulls_counted(d);
    }
}

/// Dropping the missing values keeps exactly the others: none missing
/// remain, and as many remain as were present.
pub proof fn lemma_dropna_keeps_present(vals: Seq<ValueModel>)
    ensures
        forall|i: int| 0 <= i < present(vals).len() ==> #[trigger] present(vals)[i] != ValueModel::Null,
        present(vals).len() + null_total(vals) == vals.len(),
    decreases vals.len(),
{
    if vals.len() > 0 {
        lemma_dropna_keeps_present(vals.drop_last());
        let p = present(vals.drop_last());
        if vals.last() != ValueModel::Null {
            assert forall|i: int| 0 <= i < present(vals).len() implies #[trigger] present(vals)[i]
                != ValueModel::Null by {
                if i < p.len() {
                    assert(present(vals)[i] == p[i]);
                }
            }
        }
    }
}

/// Shifting down by `n` and back up by `n` restores every value that stayed
/// in the column; the others come back missing.
pub proof fn lemma_shift_round_trip(vals: Seq<ValueModel>, n: int)
    ensures
        shifted(shifted(vals, n), -n).len() == vals.len(),
        forall|i: int|
            0 <= i < vals.len() ==> #[trigger] shifted(shifted(vals, n), -n)[i] == if 0 <= i + n < vals.len() {
                vals[i]
            } else {
                ValueModel::Null
            },
{
}

/// The running maximum never decreases, and the running minimum never
/// increases, once a value is present.
pub proof fn lemma_running_extremes_monotone(vals: Seq<ValueModel>, smallest: bool, i: int, j: int)
    requires
        0 <= i <= j < vals.len(),
        running_extremes(vals, smallest)[i] != ValueModel::Null,
    ensures
        running_extremes(vals, smallest)[j] matches ValueModel::Int(b) && running_extremes(vals, smallest)[i] matches ValueModel::Int(
            a,
        ) && (if smallest {
            b <= a
        } else {
            a <= b
        }),
    decreases j - i,
{
    if i < j {
        lemma_running_extremes_monotone(vals, smallest, i, j - 1);
        assert(vals.take(j + 1).drop_last() =~= vals.take(j));
    }
}

} // verus!
