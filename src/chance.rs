use vstd::prelude::*;

verus! {

/// Relies on `macroquad::rand::gen_range` for `i32` (quad-rand): it scales
/// a pseudo-random `u32` into `[low, high)` and truncates the result toward
/// zero, so it lies within `[low, high]`. Which value comes is up to the
/// generator's hidden state.
#[verifier::external_body]
pub(crate) fn random_between(low: i32, high: i32) -> (r: i32)
    requires
        low <= high,
    ensures
        low <= r <= high,
{
    macroquad::rand::gen_range(low, high)
}

} // verus!
