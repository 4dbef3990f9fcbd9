//! The wall clock.

use vstd::prelude::*;

verus! {

/// The wall clock in nanoseconds since the Unix epoch, from
/// `std::time::SystemTime::now`; 0 where the clock is set before the epoch. Nothing is
/// claimed of the time.
#[verifier::external_body]
pub(crate) fn now_nanos() -> (r: u128) {
    std::time::SystemTime::now().duration_since(std::time::UNIX_EPOCH).map_or(0, |d| d.as_nanos())
}

/// The wall clock in milliseconds since the Unix epoch.
pub(crate) fn now_ms() -> (r: u64) {
    millis(now_nanos())
}

/// Whole milliseconds, of which the low 64 bits are kept.
pub fn millis(nanos: u128) -> (r: u64)
    ensures
        r == (nanos / 1_000_000) % 0x1_0000_0000_0000_0000,
{
    let ms: u128 = nanos / 1_000_000;
    assert(ms as u64 == ms % 0x1_0000_0000_0000_0000) by (bit_vector);
    ms as u64
}

} // verus!
