//! The randomness that augmentations draw on.
use rand::rngs::StdRng;
use rand::seq::IteratorRandom;
use vstd::prelude::*;

verus! {

#[verifier::external_type_specification]
#[verifier::external_body]
pub struct ExStdRng(StdRng);

/// Relies on IteratorRandom::choose_multiple over `0..n`: reservoir sampling
/// keeps `min(amount, n)` items of the range, each at most once.
#[verifier::external_body]
pub(crate) fn sample_indices(rng: &mut StdRng, n: usize, amount: usize) -> (r: Vec<usize>)
    requires
        amount <= n,
    ensures
        r@.len() == (if amount < n {
            amount
        } else {
            n
        }),
        forall|i: int| 0 <= i < r@.len() ==> r@[i] < n,
        r@.no_duplicates(),
{
    (0..n).choose_multiple(rng, amount)
}

/// Relies on IteratorRandom::choose over `0..n`: `None` for an empty range,
/// else one of its values.
#[verifier::external_body]
pub(crate) fn choose_index(rng: &mut StdRng, n: usize) -> (r: Option<usize>)
    ensures
        r is None <==> n == 0,
        r matches Some(i) ==> i < n,
{
    (0..n).choose(rng)
}

} // verus!
