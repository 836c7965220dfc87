//! What this library takes on trust from the `rltk` crate.

use vstd::prelude::*;

verus! {

/// `rltk::RandomNumberGenerator`, a seeded source of random numbers. Its
/// state is not modelled.
#[verifier::external_type_specification]
#[verifier::external_body]
pub struct ExRandomNumberGenerator(rltk::RandomNumberGenerator);

/// `RandomNumberGenerator::roll_dice`: rolls `n` dice with `die_type` sides
/// each and adds them up.
///
/// Each die shows a number from 1 to `die_type`, so the sum lies between
/// `n` and `n * die_type`; nothing else is claimed of it. The call panics
/// for a die without sides and where the sum can exceed an `i32`, which
/// the precondition rules out.
#[verifier::external_body]
pub(crate) fn roll_dice(rng: &mut rltk::RandomNumberGenerator, n: i32, die_type: i32) -> (sum: i32)
    requires
        0 <= n,
        1 <= die_type < i32::MAX,
        n * die_type <= i32::MAX,
    ensures
        n <= sum <= n * die_type,
{
    rng.roll_dice(n, die_type)
}

/// The number that `rltk::to_cp437` gives for a character: its place in
/// code page 437.
pub uninterp spec fn cp437_of(c: char) -> u16;

/// `rltk::to_cp437`: looks a character up in a fixed table. The result
/// depends on the character alone.
#[verifier::external_body]
pub(crate) fn to_cp437(c: char) -> (glyph: u16)
    ensures
        glyph == cp437_of(c),
{
    rltk::to_cp437(c)
}

} // verus!
