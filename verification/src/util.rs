//! Randomness at the edge of the library: one trusted draw, and the
//! scan-tag picker built on it.

use vstd::prelude::*;

verus! {

/// Relies on `rand::random_range`: a draw from `0 .. n`, which is
/// non-empty, always lands inside the range. Which value comes back is
/// random; nothing more is promised.
#[verifier::external_body]
pub(crate) fn rand_below(n: usize) -> (r: usize)
    requires
        n > 0,
    ensures
        r < n,
{
    rand::random_range(0..n)
}

/// Draws a scan tag: the per-scan identifier carried in the high digits of
/// every transaction id, anywhere in `400 ..= 654`.
pub fn random_flag_id() -> (r: u16)
    ensures
        400 <= r < 655,
{
    let d = rand_below(255);
    400 + (d as u16)
}

} // verus!
