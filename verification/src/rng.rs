//! Trusted boundary to the random number generator: a seedable ChaCha
//! stream, passed explicitly so that generation stays deterministic for a
//! fixed seed.

use vstd::prelude::*;

verus! {

#[verifier::external_type_specification]
#[verifier::external_body]
pub struct ExChaCha8Rng(rand_chacha::ChaCha8Rng);

/// Relies on rand's `RngExt::random_range` over a half-open `i64` range:
/// the sample lies within the range; an empty range would panic and is
/// excluded here.
#[verifier::external_body]
pub fn sample_i64(rng: &mut rand_chacha::ChaCha8Rng, lo: i64, hi: i64) -> (r: i64)
    requires
        lo < hi,
    ensures
        lo <= r < hi,
{
    rand::RngExt::random_range(rng, lo..hi)
}

/// Relies on rand's `RngExt::random_range` over a half-open `u128` range:
/// the sample lies within the range; an empty range would panic and is
/// excluded here.
#[verifier::external_body]
pub fn sample_u128(rng: &mut rand_chacha::ChaCha8Rng, hi: u128) -> (r: u128)
    requires
        hi >= 1,
    ensures
        r < hi,
{
    rand::RngExt::random_range(rng, 0..hi)
}

/// Relies on rand's `RngExt::random_range` over a half-open `usize` range:
/// the sample lies within the range; an empty range would panic and is
/// excluded here.
#[verifier::external_body]
pub fn sample_index(rng: &mut rand_chacha::ChaCha8Rng, hi: usize) -> (r: usize)
    requires
        hi >= 1,
    ensures
        r < hi,
{
    rand::RngExt::random_range(rng, 0..hi)
}

} // verus!
