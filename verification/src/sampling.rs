//! The engine's one source of randomness: drawing the initial seed
//! indices.  Everything downstream of the drawn indices is verified for
//! every value they could take.

use vstd::prelude::*;

verus! {

/// Relies on rand::seq::index::sample: it returns exactly `amount`
/// distinct indices drawn uniformly from `0..length`, in random order,
/// and panics only when `amount > length`, which the precondition rules
/// out.  Nothing is assumed about which indices come back: two calls on
/// the same arguments may differ.
#[verifier::external_body]
pub(crate) fn sample_distinct_indices(n: usize, k: usize) -> (r: Vec<usize>)
    requires
        k <= n,
    ensures
        r@.len() == k,
        forall|i: int| 0 <= i < r@.len() ==> #[trigger] r@[i] < n,
        forall|i: int, j: int| 0 <= i < j < r@.len() ==> r@[i] != r@[j],
{
    rand::seq::index::sample(&mut rand::rng(), n, k).into_vec()
}

} // verus!
