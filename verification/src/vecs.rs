//! Moving the items of a vector without cloning them.
use vstd::prelude::*;

verus! {

/// The items of `v` in the opposite order, moved out one at a time from the
/// back, so that a caller can then pop them off in their first order.
pub(crate) fn into_reversed<T>(v: Vec<T>) -> (r: Vec<T>)
    ensures
        r@.len() == v@.len(),
        forall|j: int| 0 <= j < v@.len() ==> #[trigger] r@[j] == v@[v@.len() - 1 - j],
{
    let ghost v0 = v@;
    let n = v.len();
    let mut rest = v;
    let mut reversed: Vec<T> = Vec::new();
    while rest.len() > 0
        invariant
            rest@.len() + reversed@.len() == n == v0.len(),
            rest@ == v0.take(rest@.len() as int),
            forall|j: int| 0 <= j < reversed@.len() ==> #[trigger] reversed@[j] == v0[n - 1 - j],
        decreases rest@.len(),
    {
        let item = rest.pop().unwrap();
        reversed.push(item);
        assert(rest@ =~= v0.take(rest@.len() as int));
    }
    reversed
}

} // verus!
