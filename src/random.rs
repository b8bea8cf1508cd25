//! The explicitly seeded generator that drives every genetic operation.
use vstd::prelude::*;
use rand::{Rng, SeedableRng};
use rand_pcg::Pcg64;

verus! {

#[verifier::external_type_specification]
#[verifier::external_body]
pub struct ExPcg64(Pcg64);

/// Relies on `SeedableRng::seed_from_u64` for `Pcg64`: a generator whose
/// stream is fixed by the seed.
#[verifier::external_body]
pub(crate) fn seeded_rng(seed: u64) -> Pcg64 {
    Pcg64::seed_from_u64(seed)
}

/// Relies on `Rng::random_range` over `0..n`: a uniform draw below `n`
/// (the range must not be empty).
#[verifier::external_body]
pub(crate) fn draw_below(rng: &mut Pcg64, n: u64) -> (r: u64)
    requires
        n > 0,
    ensures
        r < n,
{
    rng.random_range(0..n)
}

/// Relies on `Rng::random` for `u64`: a uniform 64-bit draw.
#[verifier::external_body]
pub(crate) fn draw_u64(rng: &mut Pcg64) -> u64 {
    rng.random()
}

/// Relies on `Rng::random` for `bool`: a fair coin.
#[verifier::external_body]
pub(crate) fn draw_bool(rng: &mut Pcg64) -> bool {
    rng.random()
}

/// True with probability `num / den` (certainly false when `num` is 0).
pub(crate) fn chance(rng: &mut Pcg64, num: u64, den: u64) -> (r: bool)
    requires
        den > 0,
    ensures
        num == 0 ==> !r,
        num >= den ==> r,
{
    draw_below(rng, den) < num
}

} // verus!
