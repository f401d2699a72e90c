//! The crate's only sources of randomness, wrapped for the scrambler.

use vstd::prelude::*;

verus! {

/// Relies on rand's `Rng::gen_range` over `0..n`: a sample from the range,
/// which is non-empty because `n` is at least 1. Nothing more is assumed
/// of the value: every caller must be correct for any result below `n`.
#[verifier::external_body]
pub(crate) fn rand_below(n: usize) -> (r: usize)
    requires
        1 <= n,
    ensures
        r < n,
{
    rand::Rng::gen_range(&mut rand::thread_rng(), 0..n)
}

/// Relies on rand's `SliceRandom::shuffle`: it permutes the slice in place,
/// so the elements afterwards are exactly the elements before. Nothing is
/// assumed about their order.
#[verifier::external_body]
pub(crate) fn shuffle_cells(v: &mut Vec<usize>)
    ensures
        final(v)@.to_multiset() == old(v)@.to_multiset(),
{
    rand::seq::SliceRandom::shuffle(v.as_mut_slice(), &mut rand::thread_rng());
}

} // verus!
