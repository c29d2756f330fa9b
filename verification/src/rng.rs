//! The seeded random numbers behind the workday model.
use rand::rngs::StdRng;
use rand::{Rng, SeedableRng};
use vstd::prelude::*;

verus! {

/// The `i`-th 64-bit number, counting from zero, of `rand`'s standard generator
/// seeded with `seed`, in the version that is locked: another may have another
/// generator.
pub uninterp spec fn std_rng_u64(seed: u64, i: nat) -> u64;

/// Calls `rand::SeedableRng::seed_from_u64` on `rand::rngs::StdRng` and takes
/// the first `n` numbers of `rand::Rng::random_iter`. Trusted: there are `n` of
/// them, and each is fixed by the seed and its position (the generator is a
/// stream cipher keyed by the seed, and one 64-bit number is drawn per item).
#[verifier::external_body]
pub(crate) fn std_rng_draws(seed: u64, n: usize) -> (r: Vec<u64>)
    requires
        n * 8 <= isize::MAX,
    ensures
        r@.len() == n,
        forall|i: int| 0 <= i < n ==> #[trigger] r@[i] == std_rng_u64(seed, i as nat),
{
    StdRng::seed_from_u64(seed).random_iter().take(n).collect()
}

} // verus!
