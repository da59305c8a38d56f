//! The crate's single source of randomness, behind a trusted wrapper.

use vstd::prelude::*;

verus! {

/// Relies on `rand::Rng::gen_range` (rand 0.8) over the inclusive
/// range `lo..=hi`: the sample lies within the bounds. The range is
/// nonempty under the precondition, so the call does not panic.
/// Nothing more is assumed: two calls on the same bounds may differ.
#[verifier::external_body]
pub(crate) fn rand_range_i64(lo: i64, hi: i64) -> (r: i64)
    requires
        lo <= hi,
    ensures
        lo <= r <= hi,
{
    let mut rng = rand::thread_rng();
    rand::Rng::gen_range(&mut rng, lo..=hi)
}

} // verus!
