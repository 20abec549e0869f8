//! Dice: the seeded generator and the three kinds of draw the rules make.
use vstd::prelude::*;
use rand::Rng;
use rand::rngs::StdRng;

verus! {

/// The seeded random generator of `rand`; opaque to the proofs.
#[verifier::external_type_specification]
#[verifier::external_body]
pub struct ExStdRng(StdRng);

/// A uniform draw from `min..=max`.
///
/// Trusted: calls `rand::Rng::gen_range` with an inclusive range. Its source
/// asserts that the range is not empty (hence `min <= max`) and samples a
/// value inside it; the contract claims only that the value lies in the range.
#[verifier::external_body]
pub fn rand_range(rng: &mut StdRng, min: i32, max: i32) -> (r: i32)
    requires
        min <= max,
    ensures
        min <= r <= max,
{
    rng.gen_range(min..=max)
}

/// A uniform draw from `0..bound`.
///
/// Trusted: calls `rand::Rng::gen_range` with a half-open range, which panics
/// on an empty range (hence `bound > 0`); the contract claims only that the
/// value is below `bound`.
#[verifier::external_body]
pub fn roll_below(rng: &mut StdRng, bound: u64) -> (r: u64)
    requires
        bound > 0,
    ensures
        r < bound,
{
    rng.gen_range(0..bound)
}

/// A uniform draw of a position in `0..len`.
///
/// Trusted: calls `rand::Rng::gen_range` on `usize`; as above, it panics on an
/// empty range and otherwise returns a value inside it.
#[verifier::external_body]
pub fn pick_index(rng: &mut StdRng, len: usize) -> (r: usize)
    requires
        len > 0,
    ensures
        r < len,
{
    rng.gen_range(0..len)
}

/// A coin that shows `true` with chance `numerator / denominator`.
///
/// Trusted: calls `rand::Rng::gen_ratio`, which panics unless
/// `numerator <= denominator` and `denominator > 0`, and whose documentation
/// guarantees `true` when the two are equal and `false` when the numerator
/// is zero; nothing more is claimed of other ratios.
#[verifier::external_body]
pub fn chance(rng: &mut StdRng, numerator: u32, denominator: u32) -> (r: bool)
    requires
        0 < denominator,
        numerator <= denominator,
    ensures
        numerator == 0 ==> !r,
        numerator == denominator ==> r,
{
    rng.gen_ratio(numerator, denominator)
}

/// A uniform draw of any `u64`.
///
/// Trusted: calls `rand::Rng::gen::<u64>`, which cannot fail; nothing is
/// claimed of the value.
#[verifier::external_body]
pub fn any_u64(rng: &mut StdRng) -> (r: u64) {
    rng.gen::<u64>()
}

} // verus!
