use vstd::prelude::*;
use rltk::RandomNumberGenerator;

verus! {

#[verifier::external_type_specification]
#[verifier::external_body]
pub struct ExRandomNumberGenerator(RandomNumberGenerator);

/// Relies on rltk's `RandomNumberGenerator::roll_dice`: the sum of `n` rolls of a die with
/// faces 1 to `die_type`, each drawn by `range(1, die_type + 1)`.
#[verifier::external_body]
pub(crate) fn roll_dice(rng: &mut RandomNumberGenerator, n: i32, die_type: i32) -> (r: i32)
    requires
        0 <= n,
        1 <= die_type < i32::MAX,
        n * die_type <= i32::MAX,
    ensures
        n <= r <= n * die_type,
{
    rng.roll_dice(n, die_type)
}

/// Relies on rltk's `RandomNumberGenerator::range`: a value from `min` up to but not
/// including `max`.
#[verifier::external_body]
pub(crate) fn range(rng: &mut RandomNumberGenerator, min: i32, max: i32) -> (r: i32)
    requires
        min < max,
    ensures
        min <= r < max,
{
    rng.range(min, max)
}

} // verus!
