//! Elapsed time.

use vstd::prelude::*;

verus! {

/// `std::time::Instant`.
#[verifier::external_type_specification]
#[verifier::external_body]
pub struct ExInstant(std::time::Instant);

/// `std::time::Instant::now`: the present moment, of which nothing is promised.
#[verifier::external_body]
pub(crate) fn now() -> (t: std::time::Instant) {
    std::time::Instant::now()
}

/// `std::time::Instant::elapsed`: the time since a moment, of which nothing is promised.
#[verifier::external_body]
pub(crate) fn elapsed(start: &std::time::Instant) -> (d: std::time::Duration) {
    start.elapsed()
}

/// `std::time::Duration::as_micros`: the whole microseconds of a duration.
#[verifier::external_body]
pub(crate) fn as_micros(d: &std::time::Duration) -> (us: u128) {
    d.as_micros()
}

/// `std::time::Duration::as_millis`: the whole milliseconds of a duration.
#[verifier::external_body]
pub(crate) fn as_millis(d: &std::time::Duration) -> (ms: u128) {
    d.as_millis()
}

/// The low 64 bits of a count: the count itself, for over five hundred million years of milliseconds.
pub fn low_word(count: u128) -> (low: u64)
    ensures
        low == count % 0x1_0000_0000_0000_0000,
{
    assert(count as u64 == count % 0x1_0000_0000_0000_0000) by (bit_vector);
    count as u64
}

} // verus!
