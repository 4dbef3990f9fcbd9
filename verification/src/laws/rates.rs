//! How many requests of a client pass.

use vstd::prelude::*;
use crate::net::IpAddress;
use crate::rate_limit::{
    charged, left, served, shard_index, shard_keys, shard_of, Bucket, RateLimiter,
};

verus! {

/// The tokens of a bucket that had `tokens` and was refilled at `rate` billionths of a
/// request per second for `nanos` nanoseconds. A request is worth 10^18 tokens.
pub open spec fn tokens_after(tokens: nat, rate: u64, capacity: u32, nanos: nat) -> nat {
    if tokens + rate as nat * nanos <= capacity as nat * 1_000_000_000_000_000_000 {
        tokens + rate as nat * nanos
    } else {
        capacity as nat * 1_000_000_000_000_000_000
    }
}

/// The nanoseconds from one time to another, none where the clock went back.
pub open spec fn elapsed(from: u64, to: u64) -> nat {
    if to >= from {
        (to - from) as nat
    } else {
        0
    }
}

/// A refill adds exactly what came in over the time, up to the capacity.
pub proof fn refills_are_exact(bucket: &mut Bucket, now_ns: u64)
    requires
        call_ensures(Bucket::refill, (bucket, now_ns), ()),
    ensures
        final(bucket).tokens == tokens_after(
            old(bucket).tokens as nat,
            old(bucket).rate,
            old(bucket).capacity,
            elapsed(old(bucket).last_ns, now_ns),
        ),
        final(bucket).last_ns == now_ns,
        final(bucket).rate == old(bucket).rate,
        final(bucket).capacity == old(bucket).capacity,
{
    lemma_refilled(*old(bucket), now_ns);
}

/// What a refilled bucket holds.
pub proof fn lemma_refilled(b: Bucket, now_ns: u64)
    ensures
        b.refilled(now_ns).tokens == tokens_after(
            b.tokens as nat,
            b.rate,
            b.capacity,
            elapsed(b.last_ns, now_ns),
        ),
        b.refilled(now_ns).last_ns == now_ns,
        b.refilled(now_ns).rate == b.rate,
        b.refilled(now_ns).capacity == b.capacity,
{
    let t = elapsed(b.last_ns, now_ns);
    assert(b.rate as nat * t == b.gain(now_ns)) by {
        if t == 0 {
            assert(b.rate as nat * 0 == 0) by (nonlinear_arith);
        }
    }
}

/// A bucket counts as full exactly when a refill would fill it.
pub proof fn full_means_refilled(bucket: Bucket, now_ns: u64, is_full: bool)
    requires
        call_ensures(Bucket::is_full_at, (&bucket, now_ns), is_full),
    ensures
        is_full == (bucket.tokens + bucket.rate as nat * elapsed(bucket.last_ns, now_ns)
            >= bucket.capacity as nat * 1_000_000_000_000_000_000),
{
    if elapsed(bucket.last_ns, now_ns) == 0 {
        assert(bucket.rate as nat * 0 == 0) by (nonlinear_arith);
    }
}

/// A request passes exactly when its client has a whole token left on its route, and
/// takes that token; a client that is new to the route has the whole burst. No other
/// client and no other route is charged, and a bucket is given up only where it is full.
pub proof fn requests_take_a_token(
    limiter: &mut RateLimiter,
    route: &str,
    ip: IpAddress,
    rate: u64,
    capacity: u32,
    now_ns: u64,
    passes: bool,
)
    requires
        call_ensures(RateLimiter::check, (limiter, route, ip, rate, capacity, now_ns), passes),
    ensures
        ({
            let key = (route@, ip);
            let full = capacity as nat * 1_000_000_000_000_000_000;
            let had = if old(limiter)@.contains_key(key) {
                tokens_after(
                    old(limiter)@[key].tokens as nat,
                    rate,
                    capacity,
                    elapsed(old(limiter)@[key].last_ns, now_ns),
                )
            } else {
                full
            };
            let has = if passes {
                had - 1_000_000_000_000_000_000
            } else {
                had as int
            };
            &&& passes == (had >= 1_000_000_000_000_000_000)
            &&& final(limiter)@.contains_key(key) ==> final(limiter)@[key] == (Bucket {
                tokens: has as u128,
                last_ns: now_ns,
                rate,
                capacity,
            })
            &&& !final(limiter)@.contains_key(key) ==> has >= full
        }),
        forall|other: (Seq<char>, IpAddress)|
            other != (route@, ip) ==> {
                &&& #[trigger] final(limiter)@.contains_key(other) ==> old(limiter)@.contains_key(
                    other,
                ) && final(limiter)@[other] == old(limiter)@[other]
                &&& old(limiter)@.contains_key(other) && !final(limiter)@.contains_key(other)
                    ==> old(limiter)@[other].tokens + old(limiter)@[other].rate as nat * elapsed(
                    old(limiter)@[other].last_ns,
                    now_ns,
                ) >= old(limiter)@[other].capacity as nat * 1_000_000_000_000_000_000
            },
{
    let key = (route@, ip);
    let m = old(limiter)@;
    let b = if m.contains_key(key) {
        m[key]
    } else {
        Bucket::fresh(rate, capacity, now_ns)
    };
    lemma_refilled(Bucket { rate, capacity, ..b }, now_ns);
    if !m.contains_key(key) {
        assert(rate as nat * 0 == 0) by (nonlinear_arith);
    }
    assert(rate as nat * 0 == 0) by (nonlinear_arith);
    assert forall|other: (Seq<char>, IpAddress)| other != key implies {
        &&& #[trigger] final(limiter)@.contains_key(other) ==> m.contains_key(other)
            && final(limiter)@[other] == m[other]
        &&& m.contains_key(other) && !final(limiter)@.contains_key(other) ==> m[other].tokens
            + m[other].rate as nat * elapsed(m[other].last_ns, now_ns) >= m[other].capacity as nat
            * 1_000_000_000_000_000_000
    } by {
        assert(m[other].rate as nat * 0 == 0) by (nonlinear_arith);
    }
}

/// The keys of the buckets that share a shard with this one.
pub open spec fn neighbours(
    buckets: Map<(Seq<char>, IpAddress), Bucket>,
    key: (Seq<char>, IpAddress),
) -> Set<(Seq<char>, IpAddress)> {
    Set::new(
        |k: (Seq<char>, IpAddress)| buckets.contains_key(k) && shard_of(k) == shard_of(key),
    )
}

/// Buckets are forgotten only where their shard has more than 4096, and there all those
/// that are full again are. A bucket elsewhere is kept.
pub proof fn crowded_shards_forget_full_buckets(
    limiter: &mut RateLimiter,
    route: &str,
    ip: IpAddress,
    rate: u64,
    capacity: u32,
    now_ns: u64,
    passes: bool,
    other: (Seq<char>, IpAddress),
)
    requires
        call_ensures(RateLimiter::check, (limiter, route, ip, rate, capacity, now_ns), passes),
    ensures
        neighbours(old(limiter)@, (route@, ip)).insert((route@, ip)).len() <= 4096
            ==> final(limiter)@.contains_key((route@, ip)) && (old(limiter)@.contains_key(other)
            ==> final(limiter)@.contains_key(other)),
        neighbours(old(limiter)@, (route@, ip)).insert((route@, ip)).len() > 4096
            && final(limiter)@.contains_key(other) && shard_of(other) == shard_of((route@, ip))
            ==> final(limiter)@[other].tokens + final(limiter)@[other].rate as nat * elapsed(
            final(limiter)@[other].last_ns,
            now_ns,
        ) < final(limiter)@[other].capacity as nat * 1_000_000_000_000_000_000,
        shard_of(other) != shard_of((route@, ip)) && old(limiter)@.contains_key(other)
            ==> final(limiter)@.contains_key(other) && final(limiter)@[other]
            == old(limiter)@[other],
{
    let key = (route@, ip);
    let m = old(limiter)@;
    let after = charged(m, key, rate, capacity, now_ns);
    assert(shard_keys(after, shard_of(key)) =~= neighbours(m, key).insert(key));
    let b = final(limiter)@[other];
    assert(b.rate as nat * 0 == 0) by (nonlinear_arith);
}

/// A route and client have one shard, among 32, and a limiter starts without buckets.
pub proof fn limiters_start_empty(limiter: RateLimiter, route: &str, ip: IpAddress, shard: usize)
    requires
        call_ensures(RateLimiter::new, (), limiter),
        call_ensures(shard_index, (route, ip), shard),
    ensures
        forall|k: (Seq<char>, IpAddress)| !#[trigger] limiter@.contains_key(k),
        shard < 32,
        shard == shard_of((route@, ip)),
{
}

/// Of `n` requests at one instant as many pass as the client has whole tokens by then:
/// what it had left and what came in since, at most the burst.
pub proof fn waiting_earns_requests(b: Bucket, rate: u64, capacity: u32, now_ns: u64, n: nat)
    requires
        b.last_ns <= now_ns,
    ensures
        ({
            let has = tokens_after(b.tokens as nat, rate, capacity, elapsed(b.last_ns, now_ns));
            served(b, rate, capacity, Seq::new(n, |i: int| now_ns)) == if n * 1_000_000_000_000_000_000
                <= has {
                n
            } else {
                has / 1_000_000_000_000_000_000
            }
        }),
{
    lemma_instant(b, rate, capacity, now_ns, n);
    let has = tokens_after(b.tokens as nat, rate, capacity, elapsed(b.last_ns, now_ns));
    let whole = has / 1_000_000_000_000_000_000;
    assert(n * 1_000_000_000_000_000_000 <= has <==> n <= whole) by (nonlinear_arith)
        requires
            whole == has / 1_000_000_000_000_000_000,
    ;
}

proof fn lemma_instant(b: Bucket, rate: u64, capacity: u32, now_ns: u64, n: nat)
    requires
        b.last_ns <= now_ns,
    ensures
        ({
            let has = tokens_after(b.tokens as nat, rate, capacity, elapsed(b.last_ns, now_ns));
            let whole = has / 1_000_000_000_000_000_000;
            let passed = if n <= whole {
                n
            } else {
                whole
            };
            let times = Seq::new(n, |i: int| now_ns);
            &&& served(b, rate, capacity, times) == passed
            &&& n > 0 ==> left(b, rate, capacity, times) == (Bucket {
                tokens: (has - passed * 1_000_000_000_000_000_000) as u128,
                last_ns: now_ns,
                rate,
                capacity,
            })
        }),
    decreases n,
{
    let times = Seq::new(n, |i: int| now_ns);
    let has = tokens_after(b.tokens as nat, rate, capacity, elapsed(b.last_ns, now_ns));
    let whole = has / 1_000_000_000_000_000_000;
    if n > 0 {
        let shorter = Seq::new((n - 1) as nat, |i: int| now_ns);
        assert(times.drop_last() =~= shorter);
        lemma_instant(b, rate, capacity, now_ns, (n - 1) as nat);
        let prev = left(b, rate, capacity, shorter);
        lemma_refilled(Bucket { rate, capacity, ..prev }, now_ns);
        assert(rate as nat * 0 == 0) by (nonlinear_arith);
        assert(has <= capacity as nat * 1_000_000_000_000_000_000);
        assert(whole * 1_000_000_000_000_000_000 <= has < (whole + 1) * 1_000_000_000_000_000_000)
            by (nonlinear_arith)
            requires
                whole == has / 1_000_000_000_000_000_000,
        ;
        if n > 1 {
            assert(prev.last_ns == now_ns);
        }
    } else {
        assert(times =~= Seq::<u64>::empty());
    }
}

} // verus!
