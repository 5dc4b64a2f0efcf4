use vstd::prelude::*;

verus! {

/// The random number generator of `rltk`, carried through the library as an opaque value.
#[verifier::external_type_specification]
#[verifier::external_body]
pub struct ExRandomNumberGenerator(rltk::RandomNumberGenerator);

/// Calls `rltk::RandomNumberGenerator::new`, which seeds a fresh generator from the
/// operating system (or the clock). Nothing is claimed of the generator's state.
#[verifier::external_body]
pub(crate) fn new_rng() -> (rng: rltk::RandomNumberGenerator) {
    rltk::RandomNumberGenerator::new()
}

/// Calls `rltk::RandomNumberGenerator::range::<i32>`, which draws from `min..max`
/// (`min` included, `max` excluded) and panics on an empty range. Which value comes
/// out depends on the generator's state, so only the range is claimed.
#[verifier::external_body]
pub(crate) fn rng_range(rng: &mut rltk::RandomNumberGenerator, min: i32, max: i32) -> (r: i32)
    requires
        min < max,
    ensures
        min <= r < max,
{
    rng.range(min, max)
}

/// Calls `rltk::RandomNumberGenerator::roll_dice`, which sums `n` draws of
/// `range(1, die_type + 1)`; with no dice (`n <= 0`) the sum is empty and is 0.
/// Which dice come up depends on the generator's state, so only the bounds are claimed.
#[verifier::external_body]
pub(crate) fn roll_dice(rng: &mut rltk::RandomNumberGenerator, n: i32, die_type: i32) -> (r: i32)
    requires
        n > 0 ==> 1 <= die_type < i32::MAX && n * die_type <= i32::MAX,
    ensures
        n <= 0 ==> r == 0,
        n > 0 ==> n <= r <= n * die_type,
{
    rng.roll_dice(n, die_type)
}

/// The code page 437 glyph that `rltk::to_cp437` gives a character.
pub uninterp spec fn cp437_code(c: char) -> u16;

/// Calls `rltk::to_cp437`, a lookup table from characters to code page 437 glyphs.
/// The claim: the result is a function of `c` alone, and every printable ASCII
/// character (`' '` to `'~'`) maps to its own code. The rest of the table is not stated.
#[verifier::external_body]
pub(crate) fn to_cp437(c: char) -> (g: u16)
    ensures
        g == cp437_code(c),
        ' ' <= c <= '~' ==> g == c as u16,
{
    rltk::to_cp437(c)
}

} // verus!
