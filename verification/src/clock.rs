//! The clocks that the library reads.
use vstd::prelude::*;

verus! {

/// A reading of the monotonic clock, carried but never looked into.
#[verifier::external_type_specification]
#[verifier::external_body]
pub struct ExInstant(std::time::Instant);

/// `std::time::Instant::now`: a reading of the monotonic clock. Nothing is claimed of it.
#[verifier::external_body]
pub(crate) fn instant_now() -> std::time::Instant {
    std::time::Instant::now()
}

/// `std::time::Instant::elapsed`: the nanoseconds that have passed since a reading. Nothing is
/// claimed of the number, which depends on when the call is made.
#[verifier::external_body]
pub(crate) fn nanos_since(start: &std::time::Instant) -> u64 {
    start.elapsed().as_nanos() as u64
}

/// `chrono::Utc::now`: the time of day in RFC 3339 form. Nothing is claimed of the text, which
/// depends on when the call is made.
#[verifier::external_body]
pub(crate) fn utc_now_rfc3339() -> String {
    chrono::Utc::now().to_rfc3339()
}

} // verus!
