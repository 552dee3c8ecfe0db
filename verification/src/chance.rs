use rand::Rng;
use vstd::prelude::*;

verus! {

/// Calls `rand::random::<bool>()`, which samples the thread's generator once.
/// Either value may come back, so nothing is claimed of the result.
#[verifier::external_body]
pub(crate) fn draw_bool() -> (bit: bool) {
    rand::random::<bool>()
}

/// Calls `rand::Rng::gen_range` on the thread's generator with the range
/// `0..bound`. That call panics on an empty range, hence the demand that
/// `bound` be positive; what it returns lies inside the range.
#[verifier::external_body]
pub(crate) fn draw_below(bound: u128) -> (drawn: u128)
    requires
        bound > 0,
    ensures
        drawn < bound,
{
    rand::thread_rng().gen_range(0..bound)
}

} // verus!
