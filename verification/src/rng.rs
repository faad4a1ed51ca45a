//! Trusted wrappers around the process-wide random generator.
//!
//! The engine draws randomness for four decisions: per-row scan direction,
//! diagonal/sideways tie-breaking, the reaction probability gate, and the
//! shuffle of diffusion candidates. Nothing is promised about individual
//! draws, only what holds of every outcome.

use vstd::prelude::*;

verus! {

/// Relies on fastrand::bool: a fair coin flip; either outcome is possible,
/// so nothing is promised of the result.
#[verifier::external_body]
pub(crate) fn random_bool() -> bool {
    fastrand::bool()
}

/// Relies on fastrand::u32 over a half-open range: the draw lies in
/// `0..100`, the range is non-empty so the call does not panic.
#[verifier::external_body]
pub(crate) fn draw_percent() -> (r: u32)
    ensures
        r < 100,
{
    fastrand::u32(0..100)
}

/// Relies on fastrand::shuffle: a Fisher-Yates pass that permutes the slice
/// in place, so the result holds exactly the elements it held before.
#[verifier::external_body]
pub(crate) fn shuffle_coords(v: &mut Vec<(isize, isize)>)
    ensures
        final(v)@.to_multiset() == old(v)@.to_multiset(),
        final(v)@.len() == old(v)@.len(),
{
    fastrand::shuffle(v.as_mut_slice());
}

} // verus!
