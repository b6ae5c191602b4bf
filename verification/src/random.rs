//! The library's single source of randomness.

use rand::Rng;
use vstd::prelude::*;

verus! {

/// Relies on rand::Rng::random_range on a half-open i64 range: it returns a
/// uniformly distributed value inside the range and panics only when the
/// range is empty. Nothing more is assumed of which value comes back.
#[verifier::external_body]
pub(crate) fn sample_range(low: i64, high: i64) -> (r: i64)
    requires
        low < high,
    ensures
        low <= r < high,
{
    rand::rng().random_range(low..high)
}

} // verus!
