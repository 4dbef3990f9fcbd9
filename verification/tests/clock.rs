//! Milliseconds out of nanoseconds.

use gatepup::clock::millis;

#[test]
fn milliseconds_are_whole() {
    assert_eq!(millis(0), 0);
    assert_eq!(millis(999_999), 0);
    assert_eq!(millis(1_000_000), 1);
    assert_eq!(millis(1_700_000_000_123_999_999), 1_700_000_000_123);
}

#[test]
fn milliseconds_keep_their_low_bits() {
    assert_eq!(millis(u128::from(u64::MAX) * 1_000_000), u64::MAX);
    assert_eq!(millis((u128::from(u64::MAX) + 8) * 1_000_000), 7);
}
