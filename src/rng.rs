use rand::rngs::StdRng;
use rand::{Rng, SeedableRng};
use vstd::prelude::*;

verus! {

/// The pseudo-random generator that the rules draw their choices from.
#[verifier::external_type_specification]
#[verifier::external_body]
pub struct ExStdRng(StdRng);

/// Relies on `rand::Rng::gen_range` over `0..n`: a value inside the range, which must not be
/// empty (it panics on an empty range).
#[verifier::external_body]
pub(crate) fn below(rng: &mut StdRng, n: usize) -> (r: usize)
    requires
        n > 0,
    ensures
        r < n,
{
    rng.gen_range(0..n)
}

/// Relies on `rand::Rng::gen_ratio`: `true` with probability `num / den`; it panics unless
/// `0 < den` and `num <= den`, answers `true` whenever `num == den` and can only answer `false`
/// when `num == 0`.
#[verifier::external_body]
pub(crate) fn ratio(rng: &mut StdRng, num: u32, den: u32) -> (r: bool)
    requires
        0 < den,
        num <= den,
    ensures
        num == den ==> r,
        num == 0 ==> !r,
{
    rng.gen_ratio(num, den)
}

/// Relies on `rand::SeedableRng::seed_from_u64`: a generator whose stream depends on the seed
/// alone.
#[verifier::external_body]
pub(crate) fn seeded(seed: u64) -> (r: StdRng) {
    StdRng::seed_from_u64(seed)
}

} // verus!
