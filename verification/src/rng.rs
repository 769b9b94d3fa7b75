use vstd::prelude::*;

use rand::Rng;

verus! {

/// Relies on `rand::thread_rng` and `rand::Rng::gen_range` over a half-open
/// integer range: the draw lies in `[lo, hi)` and panics only on an empty
/// range, which the precondition rules out. The value depends on the
/// thread's generator state, so nothing beyond the bounds is promised.
#[verifier::external_body]
pub(crate) fn random_u32_in(lo: u32, hi: u32) -> (r: u32)
    requires
        lo < hi,
    ensures
        lo <= r < hi,
{
    rand::thread_rng().gen_range(lo..hi)
}

/// Relies on `rand::thread_rng` and `rand::Rng::gen_range`, as
/// `random_u32_in` does, for 16-bit port numbers.
#[verifier::external_body]
pub(crate) fn random_u16_in(lo: u16, hi: u16) -> (r: u16)
    requires
        lo < hi,
    ensures
        lo <= r < hi,
{
    rand::thread_rng().gen_range(lo..hi)
}

} // verus!
