//! The randomness source for center initialization.
//!
//! Both initializers draw from a caller-supplied `rand::rngs::StdRng`, so a
//! caller seeding it deterministically reproduces a run exactly. The drawn
//! values are random: nothing is assumed of them beyond their range and,
//! for sampling without replacement, their distinctness.

use vstd::prelude::*;

verus! {

#[verifier::external_type_specification]
#[verifier::external_body]
pub struct ExStdRng(rand::rngs::StdRng);

/// Relies on `rand::seq::index::sample`: it returns exactly `amount`
/// distinct indices drawn from `0..length`, and panics only when
/// `amount > length`.
#[verifier::external_body]
pub(crate) fn sample_indices(rng: &mut rand::rngs::StdRng, length: usize, amount: usize) -> (r:
    Vec<usize>)
    requires
        amount <= length,
    ensures
        r@.len() == amount,
        forall|i: int| 0 <= i < r@.len() ==> #[trigger] r@[i] < length,
        forall|i: int, j: int| 0 <= i < j < r@.len() ==> r@[i] != r@[j],
{
    rand::seq::index::sample(rng, length, amount).into_vec()
}

/// Relies on `rand::Rng::gen_range` over `0..bound`: it returns a value in
/// that range, and panics only when the range is empty.
#[verifier::external_body]
pub(crate) fn gen_index(rng: &mut rand::rngs::StdRng, bound: usize) -> (r: usize)
    requires
        bound >= 1,
    ensures
        r < bound,
{
    rand::Rng::gen_range(rng, 0..bound)
}

} // verus!
