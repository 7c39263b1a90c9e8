use vstd::prelude::*;
use bracket_random::prelude::RandomNumberGenerator;

verus! {

#[verifier::external_type_specification]
#[verifier::external_body]
pub struct ExRandomNumberGenerator(RandomNumberGenerator);

/// Relies on bracket_random's `RandomNumberGenerator::range`: a value drawn
/// from `min..max` (it panics on an empty range).
#[verifier::external_body]
pub(crate) fn roll_range(rng: &mut RandomNumberGenerator, min: i32, max: i32) -> (r: i32)
    requires
        min < max,
    ensures
        min <= r < max,
{
    rng.range(min, max)
}

/// Relies on bracket_random's `RandomNumberGenerator::roll_dice`: the sum of
/// `n` draws from `1..=die`.
#[verifier::external_body]
pub(crate) fn roll_dice(rng: &mut RandomNumberGenerator, n: i32, die: i32) -> (r: i32)
    requires
        0 <= n,
        1 <= die < i32::MAX,
        n * die <= i32::MAX,
    ensures
        n <= r <= n * die,
{
    rng.roll_dice(n, die)
}

} // verus!
