//! The machine's one source of randomness, behind a single trusted call.

use vstd::prelude::*;

verus! {

/// Relies on rand::random_range over the inclusive range 0..=bound: the
/// drawn byte is uniform over that range, so whatever comes back is at most
/// `bound`. The range is never empty, so the call cannot panic. Nothing more
/// can be promised of a random draw.
#[verifier::external_body]
pub(crate) fn random_byte_up_to(bound: u8) -> (r: u8)
    ensures
        r <= bound,
{
    rand::random_range(0..=bound)
}

} // verus!
