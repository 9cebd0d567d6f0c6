//! The one source of chance: the random number generator of the thread.

use rand::Rng;
use vstd::prelude::*;

verus! {

/// A number below `bound`, drawn by `rand::Rng::gen_range` from
/// `rand::thread_rng()`. The contract claims what the method documents: the
/// value lies in the half-open range from 0 to `bound`. It panics on an empty
/// range, which `requires` leaves out.
#[verifier::external_body]
pub(crate) fn random_below(bound: u8) -> (r: u8)
    requires
        bound > 0,
    ensures
        r < bound,
{
    rand::thread_rng().gen_range(0, bound)
}

} // verus!
