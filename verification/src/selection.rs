//! Selecting the elements of a sequence that pass a test, told by their
//! positions.

use vstd::prelude::*;

verus! {

/// The positions of the elements of `s` that pass `pred`, in ascending order.
pub open spec fn positions_passing<A>(s: Seq<A>, pred: spec_fn(A) -> bool) -> Seq<int>
    decreases s.len(),
{
    if s.len() == 0 {
        Seq::empty()
    } else if pred(s.last()) {
        positions_passing(s.drop_last(), pred).push(s.len() - 1)
    } else {
        positions_passing(s.drop_last(), pred)
    }
}

/// Whether `picked` holds the elements of `s` at the positions `at`, and
/// `at` lists, in ascending order and each once, exactly the positions of
/// `s` whose element passes `pred`.
pub open spec fn picks_in_order<A>(
    picked: Seq<A>,
    s: Seq<A>,
    pred: spec_fn(A) -> bool,
    at: Seq<int>,
) -> bool {
    &&& picked.len() == at.len()
    &&& forall|k: int|
        0 <= k < at.len() ==> 0 <= #[trigger] at[k] < s.len() && picked[k] == s[at[k]] && pred(
            s[at[k]],
        )
    &&& forall|j: int, k: int| 0 <= j < k < at.len() ==> at[j] < at[k]
    &&& forall|i: int|
        0 <= i < s.len() && pred(#[trigger] s[i]) ==> exists|k: int|
            0 <= k < at.len() && at[k] == i
}

/// A filter picks, in order, the elements at the positions that pass.
pub proof fn lemma_filter_picks_in_order<A>(s: Seq<A>, pred: spec_fn(A) -> bool)
    ensures
        picks_in_order(s.filter(pred), s, pred, positions_passing(s, pred)),
    decreases s.len(),
{
    reveal(Seq::filter);
    if s.len() > 0 {
        let front = s.drop_last();
        let at_front = positions_passing(front, pred);
        let at = positions_passing(s, pred);
        lemma_filter_picks_in_order(front, pred);
        assert forall|i: int| 0 <= i < s.len() && pred(#[trigger] s[i]) implies exists|k: int|
            0 <= k < at.len() && at[k] == i by {
            if i < s.len() - 1 {
                assert(pred(front[i]));
                let k = choose|k: int| 0 <= k < at_front.len() && at_front[k] == i;
                assert(at[k] == i);
            } else {
                assert(at[at.len() - 1] == i);
            }
        }
    }
}

} // verus!
