//! The token buckets.

use gatepup::net::{parse_ip, IpAddress};
use gatepup::rate_limit::{shard_index, RateLimiter};

/// One request per second.
const RATE: u64 = 1_000_000_000;
const SECOND: u64 = 1_000_000_000;

fn ip(s: &str) -> IpAddress {
    parse_ip(s).unwrap()
}

#[test]
fn allows_up_to_burst_then_blocks() {
    let mut rl = RateLimiter::new();
    let t = 5;
    // capacity 3, rate 1/s: first 3 pass at the same instant, 4th blocked.
    assert!(rl.check("r", ip("1.1.1.1"), RATE, 3, t));
    assert!(rl.check("r", ip("1.1.1.1"), RATE, 3, t));
    assert!(rl.check("r", ip("1.1.1.1"), RATE, 3, t));
    assert!(!rl.check("r", ip("1.1.1.1"), RATE, 3, t));
}

#[test]
fn refills_over_time() {
    let mut rl = RateLimiter::new();
    let t = 5;
    assert!(rl.check("r", ip("1.1.1.1"), RATE, 1, t));
    assert!(!rl.check("r", ip("1.1.1.1"), RATE, 1, t));
    // One second later, one token has refilled.
    assert!(rl.check("r", ip("1.1.1.1"), RATE, 1, t + SECOND));
}

#[test]
fn buckets_are_independent_per_ip_and_route() {
    let mut rl = RateLimiter::new();
    let t = 5;
    assert!(rl.check("r", ip("1.1.1.1"), RATE, 1, t));
    // Different IP: own bucket.
    assert!(rl.check("r", ip("2.2.2.2"), RATE, 1, t));
    // Different route, same IP: own bucket.
    assert!(rl.check("other", ip("1.1.1.1"), RATE, 1, t));
    // First key is now exhausted.
    assert!(!rl.check("r", ip("1.1.1.1"), RATE, 1, t));
}

#[test]
fn refills_no_further_than_the_burst() {
    let mut rl = RateLimiter::new();
    assert!(rl.check("r", ip("1.1.1.1"), RATE, 2, 0));
    let later = 1_000 * SECOND;
    assert!(rl.check("r", ip("1.1.1.1"), RATE, 2, later));
    assert!(rl.check("r", ip("1.1.1.1"), RATE, 2, later));
    assert!(!rl.check("r", ip("1.1.1.1"), RATE, 2, later));
}

#[test]
fn refills_in_fractions() {
    let mut rl = RateLimiter::new();
    assert!(rl.check("r", ip("1.1.1.1"), RATE / 2, 1, 0));
    assert!(!rl.check("r", ip("1.1.1.1"), RATE / 2, 1, SECOND));
    assert!(!rl.check("r", ip("1.1.1.1"), RATE / 2, 1, 2 * SECOND - 1));
    assert!(rl.check("r", ip("1.1.1.1"), RATE / 2, 1, 2 * SECOND));
}

#[test]
fn passes_at_most_burst_and_rate_in_the_long_run() {
    let mut rl = RateLimiter::new();
    let mut passed = 0;
    for step in 0..1000u64 {
        if rl.check("r", ip("1.1.1.1"), RATE, 5, step * SECOND / 100) {
            passed += 1;
        }
    }
    // 9.99 seconds at one per second, and a burst of five.
    assert_eq!(passed, 14);
}

#[test]
fn a_clock_that_steps_back_refills_nothing() {
    let mut rl = RateLimiter::new();
    assert!(rl.check("r", ip("1.1.1.1"), RATE, 1, 10 * SECOND));
    assert!(!rl.check("r", ip("1.1.1.1"), RATE, 1, 0));
}

#[test]
fn many_clients_keep_their_budgets() {
    let mut rl = RateLimiter::new();
    for n in 0..5000u32 {
        assert!(rl.check("r", IpAddress::V4(n), RATE, 1, 0));
    }
    for n in [0u32, 4095, 4096, 4999] {
        assert!(!rl.check("r", IpAddress::V4(n), RATE, 1, 0));
    }
    assert!(rl.check("r", IpAddress::V4(9), RATE, 1, SECOND));
}

/// Addresses whose buckets on the route `r` are in this shard.
fn in_shard(shard: usize) -> impl Iterator<Item = IpAddress> {
    (0u32..)
        .map(IpAddress::V4)
        .filter(move |&ip| shard_index("r", ip) == shard)
}

#[test]
fn shards_are_hashes_of_the_key() {
    assert_eq!(shard_index("", IpAddress::V4(0)), 0);
    assert_eq!(shard_index("", IpAddress::V4(33)), 1);
    // 'r' is 114, and 114 * 31 is 14 over a multiple of 32.
    assert_eq!(shard_index("r", IpAddress::V4(0)), 14);
    assert_eq!(shard_index("r", IpAddress::V4(20)), 2);
    // 2^64 is 25 over a multiple of the modulus.
    assert_eq!(shard_index("", IpAddress::V6(1 << 64)), 25);
}

#[test]
fn crowded_shards_drop_idle_buckets() {
    let mut rl = RateLimiter::new();
    let mut ips = in_shard(7);
    let first = ips.next().unwrap();
    assert!(rl.check("r", first, RATE, 1, 0));
    for ip in ips.by_ref().take(4095) {
        assert!(rl.check("r", ip, RATE, 1, 0));
    }
    // The bucket of another shard stays, whatever happens in this one.
    let apart = in_shard(8).next().unwrap();
    assert!(rl.check("r", apart, RATE, 1, 0));
    // One bucket more than the threshold: those that are full again go.
    assert!(rl.check("r", ips.next().unwrap(), RATE, 1, SECOND));
    for _ in 0..3 {
        assert!(rl.check("r", first, RATE, 3, SECOND));
    }
    assert!(!rl.check("r", first, RATE, 3, SECOND));
    assert!(rl.check("r", apart, RATE, 3, SECOND));
    assert!(!rl.check("r", apart, RATE, 3, SECOND));
}

#[test]
fn shards_are_counted_alone() {
    let mut rl = RateLimiter::new();
    for n in 0..5000u32 {
        assert!(rl.check("r", IpAddress::V4(n), RATE, 1, 0));
    }
    // No shard is over the threshold, so no bucket was dropped for a fresh one.
    assert!(rl.check("r", IpAddress::V4(5000), RATE, 1, SECOND));
    assert!(rl.check("r", IpAddress::V4(9), RATE, 2, SECOND));
    assert!(!rl.check("r", IpAddress::V4(9), RATE, 2, SECOND));
}
