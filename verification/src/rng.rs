//! The random source behind food placement.

use rand::Rng;
use vstd::prelude::*;

verus! {

/// Relies on `rand::thread_rng` and `rand::Rng::gen_range` over a half-open
/// `u16` range: the sample lies inside the range. `gen_range` panics on an
/// empty range, so one is ruled out here.
#[verifier::external_body]
pub(crate) fn sample_range(lo: u16, hi: u16) -> (r: u16)
    requires
        lo < hi,
    ensures
        lo <= r < hi,
{
    rand::thread_rng().gen_range(lo..hi)
}

} // verus!
