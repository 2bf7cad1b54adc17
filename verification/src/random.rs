//! Random draws. The generator is the outside crate's; nothing is known of
//! a draw but the range it falls in.

use vstd::prelude::*;
use bracket_lib::prelude::RandomNumberGenerator;

verus! {

#[verifier::external_type_specification]
#[verifier::external_body]
pub struct ExRandomNumberGenerator(RandomNumberGenerator);

/// Calls `RandomNumberGenerator::range` on `i32`. The draw is at least `min`
/// and below `max`; the outside function panics on an empty range, so
/// `min < max` is required.
#[verifier::external_body]
pub(crate) fn range(rng: &mut RandomNumberGenerator, min: i32, max: i32) -> (r: i32)
    requires
        min < max,
    ensures
        min <= r < max,
{
    rng.range(min, max)
}

/// Calls `RandomNumberGenerator::random_slice_index`. An empty slice gives
/// `None`, any other an index into it. The outside function rolls a die with
/// as many sides as the slice is long, counted in `i32`, hence the bound.
#[verifier::external_body]
pub(crate) fn random_slice_index<T>(rng: &mut RandomNumberGenerator, slice: &Vec<T>) -> (r: Option<
    usize,
>)
    requires
        slice@.len() < i32::MAX,
    ensures
        slice@.len() == 0 ==> r.is_none(),
        slice@.len() > 0 ==> r.is_some() && r->0 < slice@.len(),
{
    rng.random_slice_index(slice.as_slice())
}

} // verus!
