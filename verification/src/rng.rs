//! The library's one source of randomness.

use rand::Rng;
use vstd::prelude::*;

verus! {

/// Relies on rand::thread_rng and rand::Rng::gen_range: the result of
/// `gen_range(lo..=hi)` lies in the inclusive range, and the call panics
/// only on an empty range, which the precondition excludes. Nothing more
/// is assumed of the draw.
#[verifier::external_body]
pub(crate) fn random_in_range(lo: u64, hi: u64) -> (r: u64)
    requires
        lo <= hi,
    ensures
        lo <= r <= hi,
{
    rand::thread_rng().gen_range(lo..=hi)
}

} // verus!
