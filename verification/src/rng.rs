//! The random source used by the dungeon generator.
//!
//! Generation threads one explicit, seedable source through every draw, so
//! that two runs seeded alike consume the same stream and build the same
//! level. Nothing is assumed about the values drawn beyond their range: every
//! caller is verified for every outcome the contracts admit.

use vstd::prelude::*;
use rand::Rng;
use rand::SeedableRng;

verus! {

/// Relies on rand::rngs::StdRng, declared opaque so it can stand in a field:
/// the verifier sees nothing inside the generator state.
#[verifier::external_type_specification]
#[verifier::external_body]
pub struct ExStdRng(rand::rngs::StdRng);

/// A seedable stream of random draws, backed by `rand`'s standard generator.
pub struct RandomSource {
    rng: rand::rngs::StdRng,
}

impl RandomSource {
    /// Relies on rand::SeedableRng::seed_from_u64: builds the standard
    /// generator from a 64-bit seed. Nothing is claimed of the stream.
    #[verifier::external_body]
    pub fn from_seed(seed: u64) -> RandomSource {
        RandomSource { rng: rand::rngs::StdRng::seed_from_u64(seed) }
    }

    /// Relies on rand::Rng::gen_range: a draw from `lo..hi` lies in
    /// `[lo, hi)`; the call panics on an empty range, which the
    /// precondition rules out.
    #[verifier::external_body]
    pub(crate) fn gen_range(&mut self, lo: i32, hi: i32) -> (r: i32)
        requires
            lo < hi,
        ensures
            lo <= r < hi,
    {
        self.rng.gen_range(lo..hi)
    }

    /// Relies on rand::Rng::gen with the Standard distribution on bool: a
    /// coin flip. Nothing is claimed of the outcome.
    #[verifier::external_body]
    pub(crate) fn coin(&mut self) -> bool {
        self.rng.gen::<bool>()
    }
}

} // verus!
