use std::time::Instant;
use vstd::prelude::*;

verus! {

/// `std::time::Instant`, a reading of the monotonic clock; the library only
/// stores it.
#[verifier::external_type_specification]
#[verifier::external_body]
pub struct ExInstant(Instant);

/// Reads the clock through `std::time::Instant::now`. Nothing is claimed of
/// the reading, which depends on when the call is made.
#[verifier::external_body]
pub fn now() -> (r: Instant) {
    Instant::now()
}

} // verus!
