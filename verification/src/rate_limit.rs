//! Per-client-IP, per-route token-bucket rate limiter.
//!
//! State lives outside the config snapshot (owned by the server, shared across
//! reloads) so a hot reload doesn't reset clients' budgets. The buckets are sharded by
//! a hash of their key. Idle (fully refilled) buckets are evicted lazily when a shard
//! grows past a threshold, so memory stays bounded even under a flood of distinct
//! client IPs.
//!
//! Tokens are counted in units of 10^-18 requests: a rate in billionths of a
//! request per second, times nanoseconds, is a whole number of them.

use vstd::prelude::*;
use crate::net::IpAddress;
use crate::text::{chars_of, text_eq};

verus! {

/// How many shards the buckets are spread over.
pub const SHARDS: usize = 32;

/// Per-shard entry count above which a sweep drops idle buckets.
pub const SWEEP_THRESHOLD: usize = 4096;

/// One request's worth of tokens.
pub const TOKEN: u128 = 1_000_000_000_000_000_000;

/// What one client has left on one route. `rate` is in billionths of a request per
/// second, `last_ns` in nanoseconds on a steady clock.
#[derive(Debug, Clone, Copy, PartialEq, Eq, Structural)]
pub struct Bucket {
    pub tokens: u128,
    pub last_ns: u64,
    pub rate: u64,
    pub capacity: u32,
}

/// The tokens of a full bucket.
pub open spec fn full(capacity: u32) -> nat {
    capacity as nat * TOKEN as nat
}

impl Bucket {
    /// A bucket that was not used yet: full.
    pub open spec fn fresh(rate: u64, capacity: u32, now_ns: u64) -> Self {
        Bucket { tokens: full(capacity) as u128, last_ns: now_ns, rate, capacity }
    }

    /// Tokens that came in since the last use. A clock that went back adds none.
    pub open spec fn gain(self, now_ns: u64) -> nat {
        if now_ns > self.last_ns {
            self.rate as nat * (now_ns - self.last_ns) as nat
        } else {
            0
        }
    }

    /// The bucket refilled to the present, at most to capacity.
    pub open spec fn refilled(self, now_ns: u64) -> Self {
        Bucket {
            tokens: if self.tokens + self.gain(now_ns) >= full(self.capacity) {
                full(self.capacity) as u128
            } else {
                (self.tokens + self.gain(now_ns)) as u128
            },
            last_ns: now_ns,
            ..self
        }
    }

    /// Whether the bucket is back at capacity.
    pub open spec fn full_at(self, now_ns: u64) -> bool {
        self.tokens + self.gain(now_ns) >= full(self.capacity)
    }

    /// The bucket with the parameters of the present call, refilled.
    pub open spec fn ready(self, rate: u64, capacity: u32, now_ns: u64) -> Self {
        Bucket { rate, capacity, ..self }.refilled(now_ns)
    }

    /// Whether one request may pass.
    pub open spec fn passes(self) -> bool {
        self.tokens >= TOKEN
    }

    /// The bucket after a request: a token less, where one was there.
    pub open spec fn taken(self) -> Self {
        if self.passes() {
            Bucket { tokens: (self.tokens - TOKEN) as u128, ..self }
        } else {
            self
        }
    }

    /// Refill to the present, clamped to capacity.
    pub fn refill(&mut self, now_ns: u64)
        ensures
            *final(self) == old(self).refilled(now_ns),
    {
        let elapsed: u64 = if now_ns > self.last_ns { now_ns - self.last_ns } else { 0 };
        proof {
            lemma_product(self.rate, elapsed);
        }
        let gained: u128 = self.rate as u128 * elapsed as u128;
        let limit: u128 = self.capacity as u128 * TOKEN;
        self.tokens = if self.tokens >= limit || gained >= limit - self.tokens {
            limit
        } else {
            self.tokens + gained
        };
        self.last_ns = now_ns;
    }

    /// True once enough time has passed that this bucket is back at capacity
    /// (i.e. equivalent to a fresh bucket — safe to evict).
    pub fn is_full_at(&self, now_ns: u64) -> (r: bool)
        ensures
            r == self.full_at(now_ns),
    {
        let elapsed: u64 = if now_ns > self.last_ns { now_ns - self.last_ns } else { 0 };
        proof {
            lemma_product(self.rate, elapsed);
        }
        let gained: u128 = self.rate as u128 * elapsed as u128;
        let limit: u128 = self.capacity as u128 * TOKEN;
        self.tokens >= limit || gained >= limit - self.tokens
    }
}

/// A rate times a time fits.
proof fn lemma_product(rate: u64, elapsed: u64)
    ensures
        rate as nat * elapsed as nat <= u128::MAX,
{
    assert(rate as nat * elapsed as nat <= 0xffff_ffff_ffff_ffffnat * 0xffff_ffff_ffff_ffffnat)
        by (nonlinear_arith)
        requires
            rate <= 0xffff_ffff_ffff_ffff,
            elapsed <= 0xffff_ffff_ffff_ffff,
    ;
}

/// A bucket and whose it is.
#[derive(Debug, Clone)]
pub struct Entry {
    pub route: String,
    pub ip: IpAddress,
    pub bucket: Bucket,
}

/// What a bucket is kept under.
pub type Key = (Seq<char>, IpAddress);

impl Entry {
    pub open spec fn key(self) -> Key {
        (self.route@, self.ip)
    }
}

/// The prime that hashes are reduced by.
pub const HASH_MODULUS: u64 = 4_294_967_291;

/// The hash of a text: its characters as the digits of a number, reduced.
pub open spec fn text_hash(s: Seq<char>) -> nat
    decreases s.len(),
{
    if s.len() == 0 {
        0
    } else {
        (text_hash(s.drop_last()) * 31 + (s.last() as u32) as nat) % (HASH_MODULUS as nat)
    }
}

/// The number of an address.
pub open spec fn address_number(ip: IpAddress) -> nat {
    match ip {
        IpAddress::V4(bits) => bits as nat,
        IpAddress::V6(bits) => bits as nat,
    }
}

/// The shard that the bucket of a key is in.
pub open spec fn shard_of(key: Key) -> nat {
    ((text_hash(key.0) * 31 + address_number(key.1) % (HASH_MODULUS as nat)) % (
    HASH_MODULUS as nat)) % (SHARDS as nat)
}

/// The shard that the bucket of `(route, ip)` is in.
pub fn shard_index(route: &str, ip: IpAddress) -> (r: usize)
    ensures
        r == shard_of((route@, ip)),
        r < SHARDS,
{
    let chars = chars_of(route);
    let mut hash: u64 = 0;
    let mut i: usize = 0;
    while i < chars.len()
        invariant
            i <= chars.len(),
            hash < HASH_MODULUS,
            hash == text_hash(chars@.take(i as int)),
        decreases chars.len() - i,
    {
        assert(chars@.take(i + 1).drop_last() == chars@.take(i as int));
        let c: u32 = chars[i] as u32;
        hash = (hash * 31 + c as u64) % HASH_MODULUS;
        i += 1;
    }
    assert(chars@.take(chars@.len() as int) == chars@);
    let number: u64 = match ip {
        IpAddress::V4(bits) => bits as u64 % HASH_MODULUS,
        IpAddress::V6(bits) => (bits % (HASH_MODULUS as u128)) as u64,
    };
    ((hash * 31 + number) % HASH_MODULUS % (SHARDS as u64)) as usize
}

/// One shard of the buckets.
#[derive(Debug, Clone)]
struct Shard {
    entries: Vec<Entry>,
}

/// Buckets by route and client address.
#[derive(Debug, Clone)]
pub struct RateLimiter {
    shards: Vec<Shard>,
}

/// No two entries are kept under one key.
pub open spec fn distinct(entries: Seq<Entry>) -> bool {
    forall|i: int, j: int|
        0 <= i < j < entries.len() ==> #[trigger] entries[i].key() != #[trigger] entries[j].key()
}

/// The buckets of a list of entries by key.
pub open spec fn buckets(entries: Seq<Entry>) -> Map<Key, Bucket>
    decreases entries.len(),
{
    if entries.len() == 0 {
        Map::empty()
    } else {
        buckets(entries.drop_last()).insert(entries.last().key(), entries.last().bucket)
    }
}

proof fn lemma_buckets(entries: Seq<Entry>)
    requires
        distinct(entries),
    ensures
        buckets(entries).dom().finite(),
        buckets(entries).dom().len() == entries.len(),
        forall|i: int|
            0 <= i < entries.len() ==> buckets(entries).contains_key(#[trigger] entries[i].key())
                && buckets(entries)[entries[i].key()] == entries[i].bucket,
        forall|k: Key| #[trigger]
            buckets(entries).contains_key(k) ==> exists|i: int|
                0 <= i < entries.len() && #[trigger] entries[i].key() == k,
    decreases entries.len(),
{
    if entries.len() > 0 {
        let front = entries.drop_last();
        lemma_buckets(front);
        let k = entries.last().key();
        if buckets(front).contains_key(k) {
            let i = choose|i: int| 0 <= i < front.len() && #[trigger] front[i].key() == k;
            assert(entries[i].key() == entries[entries.len() - 1].key());
            assert(false);
        }
        assert forall|i: int| 0 <= i < entries.len() implies buckets(entries).contains_key(
            #[trigger] entries[i].key(),
        ) && buckets(entries)[entries[i].key()] == entries[i].bucket by {
            if i < front.len() {
                assert(front[i].key() == entries[i].key());
                assert(entries[i].key() != entries[entries.len() - 1].key());
            }
        }
        assert forall|key: Key| #[trigger] buckets(entries).contains_key(key) implies exists|i: int|
            0 <= i < entries.len() && #[trigger] entries[i].key() == key by {
            if key == k {
                assert(entries[entries.len() - 1].key() == key);
            } else {
                assert(buckets(front).contains_key(key));
                let i = choose|i: int| 0 <= i < front.len() && #[trigger] front[i].key() == key;
                assert(entries[i].key() == key);
            }
        }
    }
}

/// Two lists with the same keys and buckets are the same map.
proof fn lemma_buckets_are(entries: Seq<Entry>, m: Map<Key, Bucket>)
    requires
        distinct(entries),
        forall|i: int|
            0 <= i < entries.len() ==> m.contains_key(#[trigger] entries[i].key())
                && m[entries[i].key()] == entries[i].bucket,
        forall|k: Key| #[trigger]
            m.contains_key(k) ==> exists|i: int|
                0 <= i < entries.len() && #[trigger] entries[i].key() == k,
    ensures
        buckets(entries) == m,
{
    lemma_buckets(entries);
    assert forall|k: Key| buckets(entries).contains_key(k) == m.contains_key(k) && (m.contains_key(
        k,
    ) ==> buckets(entries)[k] == m[k]) by {
        if buckets(entries).contains_key(k) {
            let i = choose|i: int| 0 <= i < entries.len() && #[trigger] entries[i].key() == k;
            assert(m.contains_key(entries[i].key()));
        }
        if m.contains_key(k) {
            let i = choose|i: int| 0 <= i < entries.len() && #[trigger] entries[i].key() == k;
            assert(buckets(entries).contains_key(entries[i].key()));
        }
    }
    assert(buckets(entries) =~= m);
}

/// The buckets that are not full.
pub open spec fn unfilled(m: Map<Key, Bucket>, now_ns: u64) -> Map<Key, Bucket> {
    m.restrict(Set::new(|k: Key| m.contains_key(k) && !m[k].full_at(now_ns)))
}

/// The entries whose buckets are not full.
spec fn keep(entries: Seq<Entry>, now_ns: u64) -> Seq<Entry>
    decreases entries.len(),
{
    if entries.len() == 0 {
        Seq::empty()
    } else if entries.last().bucket.full_at(now_ns) {
        keep(entries.drop_last(), now_ns)
    } else {
        keep(entries.drop_last(), now_ns).push(entries.last())
    }
}

proof fn lemma_keep(entries: Seq<Entry>, now_ns: u64)
    requires
        distinct(entries),
    ensures
        distinct(keep(entries, now_ns)),
        buckets(keep(entries, now_ns)) == unfilled(buckets(entries), now_ns),
        forall|j: int|
            0 <= j < keep(entries, now_ns).len() ==> exists|i: int|
                0 <= i < entries.len() && #[trigger] entries[i].key()
                    == #[trigger] keep(entries, now_ns)[j].key(),
    decreases entries.len(),
{
    if entries.len() > 0 {
        let front = entries.drop_last();
        let last = entries.last();
        lemma_keep(front, now_ns);
        lemma_buckets(front);
        let old_kept = keep(front, now_ns);
        let kept = keep(entries, now_ns);
        let m = buckets(front);
        assert(!m.contains_key(last.key())) by {
            if m.contains_key(last.key()) {
                let i = choose|i: int| 0 <= i < front.len() && #[trigger] front[i].key()
                    == last.key();
                assert(entries[i].key() != entries[entries.len() - 1].key());
            }
        }
        assert forall|j: int| 0 <= j < kept.len() implies exists|i: int|
            0 <= i < entries.len() && #[trigger] entries[i].key() == #[trigger] kept[j].key() by {
            if j < old_kept.len() {
                assert(kept[j] == old_kept[j]);
                let i = choose|i: int|
                    0 <= i < front.len() && #[trigger] front[i].key() == old_kept[j].key();
                assert(entries[i].key() == kept[j].key());
            } else {
                assert(entries[entries.len() - 1].key() == kept[j].key());
            }
        }
        if last.bucket.full_at(now_ns) {
            assert(unfilled(buckets(entries), now_ns) =~= unfilled(m, now_ns));
        } else {
            assert(kept.drop_last() == old_kept);
            assert(unfilled(buckets(entries), now_ns) =~= unfilled(m, now_ns).insert(
                last.key(),
                last.bucket,
            ));
            assert forall|a: int, b: int| 0 <= a < b < kept.len() implies #[trigger] kept[a].key()
                != #[trigger] kept[b].key() by {
                assert(kept[a] == old_kept[a]);
                if b < old_kept.len() {
                    assert(kept[b] == old_kept[b]);
                } else {
                    let i = choose|i: int|
                        0 <= i < front.len() && #[trigger] front[i].key() == old_kept[a].key();
                    assert(entries[i].key() != entries[entries.len() - 1].key());
                }
            }
        }
    } else {
        assert(unfilled(buckets(entries), now_ns) =~= Map::<Key, Bucket>::empty());
    }
}

/// The bucket of a key: a full one where there is none yet.
pub open spec fn bucket_of(
    m: Map<Key, Bucket>,
    key: Key,
    rate: u64,
    capacity: u32,
    now_ns: u64,
) -> Bucket {
    if m.contains_key(key) {
        m[key]
    } else {
        Bucket::fresh(rate, capacity, now_ns)
    }
}

/// The buckets after one check, before any sweep.
pub open spec fn charged(
    m: Map<Key, Bucket>,
    key: Key,
    rate: u64,
    capacity: u32,
    now_ns: u64,
) -> Map<Key, Bucket> {
    m.insert(
        key,
        bucket_of(m, key, rate, capacity, now_ns).ready(rate, capacity, now_ns).taken(),
    )
}

/// The keys of the buckets in a shard.
pub open spec fn shard_keys(m: Map<Key, Bucket>, shard: nat) -> Set<Key> {
    Set::new(|k: Key| m.contains_key(k) && shard_of(k) == shard)
}

/// The buckets without those of a shard that are back at capacity.
pub open spec fn swept(m: Map<Key, Bucket>, shard: nat, now_ns: u64) -> Map<Key, Bucket> {
    m.restrict(
        Set::new(|k: Key| m.contains_key(k) && !(shard_of(k) == shard && m[k].full_at(now_ns))),
    )
}

/// The buckets after one check: the key's bucket is charged, and where its shard has
/// grown past the threshold, the shard is swept.
pub open spec fn checked(
    m: Map<Key, Bucket>,
    key: Key,
    rate: u64,
    capacity: u32,
    now_ns: u64,
) -> Map<Key, Bucket> {
    let after = charged(m, key, rate, capacity, now_ns);
    if shard_keys(after, shard_of(key)).len() > SWEEP_THRESHOLD {
        swept(after, shard_of(key), now_ns)
    } else {
        after
    }
}

impl Shard {
    spec fn wf(self) -> bool {
        distinct(self.entries@)
    }

    /// The buckets of the shard.
    spec fn held(self) -> Map<Key, Bucket> {
        buckets(self.entries@)
    }

    /// Every bucket in this shard belongs here.
    spec fn is_home(self, shard: nat) -> bool {
        forall|k: Key| #[trigger] self.held().contains_key(k) ==> shard_of(k) == shard
    }

    /// Position of the bucket of a key.
    fn find(&self, route: &str, ip: IpAddress) -> (r: Option<usize>)
        ensures
            match r {
                Some(i) => i < self.entries@.len() && self.entries@[i as int].key() == (route@, ip),
                None => forall|j: int|
                    0 <= j < self.entries@.len() ==> #[trigger] self.entries@[j].key() != (
                    route@,
                    ip,
                    ),
            },
    {
        let mut i: usize = 0;
        while i < self.entries.len()
            invariant
                i <= self.entries.len(),
                forall|j: int| 0 <= j < i ==> #[trigger] self.entries@[j].key() != (route@, ip),
            decreases self.entries.len() - i,
        {
            let entry = &self.entries[i];
            if entry.ip == ip && text_eq(entry.route.as_str(), route) {
                return Some(i);
            }
            i += 1;
        }
        None
    }

    /// Drop the buckets that are back at capacity.
    fn sweep(&mut self, now_ns: u64)
        requires
            old(self).wf(),
        ensures
            final(self).wf(),
            final(self).held() == unfilled(old(self).held(), now_ns),
    {
        let ghost all = self.entries@;
        let mut kept: Vec<Entry> = Vec::new();
        let mut i: usize = 0;
        while i < self.entries.len()
            invariant
                i <= self.entries.len(),
                self.entries@ == all,
                kept@ == keep(all.take(i as int), now_ns),
            decreases self.entries.len() - i,
        {
            let entry = &self.entries[i];
            assert(all.take(i + 1).drop_last() == all.take(i as int));
            if !entry.bucket.is_full_at(now_ns) {
                let copy = Entry { route: entry.route.clone(), ip: entry.ip, bucket: entry.bucket };
                kept.push(copy);
            }
            i += 1;
        }
        proof {
            assert(all.take(all.len() as int) == all);
            lemma_keep(all, now_ns);
        }
        self.entries = kept;
    }

    /// Consume one token for `(route, ip)`, and drop idle buckets where there are many.
    fn check(&mut self, route: &str, ip: IpAddress, rate: u64, capacity: u32, now_ns: u64) -> (r:
        bool)
        requires
            old(self).wf(),
        ensures
            final(self).wf(),
            r == bucket_of(old(self).held(), (route@, ip), rate, capacity, now_ns).ready(
                rate,
                capacity,
                now_ns,
            ).passes(),
            ({
                let after = charged(old(self).held(), (route@, ip), rate, capacity, now_ns);
                final(self).held() == if after.dom().len() > SWEEP_THRESHOLD {
                    unfilled(after, now_ns)
                } else {
                    after
                }
            }),
    {
        let ghost key = (route@, ip);
        let ghost before = self.entries@;
        let ghost m = buckets(before);
        let found = self.find(route, ip);
        proof {
            lemma_buckets(before);
            if let Some(i) = found {
                assert(m.contains_key(before[i as int].key()));
            } else if m.contains_key(key) {
                let j = choose|j: int| 0 <= j < before.len() && #[trigger] before[j].key() == key;
                assert(false);
            }
        }
        let mut bucket = match found {
            Some(i) => self.entries[i].bucket,
            None => Bucket {
                tokens: capacity as u128 * TOKEN,
                last_ns: now_ns,
                rate,
                capacity,
            },
        };
        assert(bucket == bucket_of(m, key, rate, capacity, now_ns));
        // Keep params current (reload may have changed them).
        bucket.rate = rate;
        bucket.capacity = capacity;
        bucket.refill(now_ns);
        let allowed = bucket.tokens >= TOKEN;
        if allowed {
            bucket.tokens = bucket.tokens - TOKEN;
        }
        let ghost after = charged(m, key, rate, capacity, now_ns);
        match found {
            Some(i) => {
                let entry = Entry { route: route.to_string(), ip, bucket };
                self.entries.set(i, entry);
                proof {
                    let now = self.entries@;
                    assert forall|a: int, b: int| 0 <= a < b < now.len() implies #[trigger]
                    now[a].key() != #[trigger] now[b].key() by {
                        assert(before[a].key() != before[b].key());
                        assert(now[a].key() == before[a].key());
                        assert(now[b].key() == before[b].key());
                    }
                    assert forall|j: int| 0 <= j < now.len() implies after.contains_key(
                        #[trigger] now[j].key(),
                    ) && after[now[j].key()] == now[j].bucket by {
                        if j != i {
                            assert(now[j] == before[j]);
                            assert(before[j].key() != before[i as int].key());
                        }
                    }
                    assert forall|k: Key| #[trigger] after.contains_key(k) implies exists|j: int|
                        0 <= j < now.len() && #[trigger] now[j].key() == k by {
                        if k == key {
                            assert(now[i as int].key() == k);
                        } else {
                            assert(m.contains_key(k));
                            let j = choose|j: int|
                                0 <= j < before.len() && #[trigger] before[j].key() == k;
                            assert(now[j].key() == k);
                        }
                    }
                    lemma_buckets_are(now, after);
                }
            },
            None => {
                self.entries.push(Entry { route: route.to_string(), ip, bucket });
                proof {
                    let now = self.entries@;
                    assert(now.drop_last() == before);
                    assert forall|a: int, b: int| 0 <= a < b < now.len() implies #[trigger]
                    now[a].key() != #[trigger] now[b].key() by {
                        assert(now[a] == before[a]);
                        if b < before.len() {
                            assert(now[b] == before[b]);
                        } else {
                            assert(before[a].key() != key);
                        }
                    }
                }
            },
        }
        proof {
            lemma_buckets(self.entries@);
            assert(buckets(self.entries@) == after);
        }
        if self.entries.len() > SWEEP_THRESHOLD {
            self.sweep(now_ns);
        }
        allowed
    }
}

impl RateLimiter {
    /// Each shard holds the buckets that belong to it.
    pub closed spec fn wf(self) -> bool {
        &&& self.shards@.len() == SHARDS
        &&& forall|i: int|
            0 <= i < SHARDS ==> (#[trigger] self.shards@[i]).wf() && self.shards@[i].is_home(
                i as nat,
            )
    }
}

impl View for RateLimiter {
    type V = Map<Key, Bucket>;

    closed spec fn view(&self) -> Map<Key, Bucket> {
        Map::new(
            |k: Key| self.shards@[shard_of(k) as int].held().contains_key(k),
            |k: Key| self.shards@[shard_of(k) as int].held()[k],
        )
    }
}

impl RateLimiter {
    /// A limiter that keeps no bucket.
    pub fn new() -> (r: Self)
        ensures
            r.wf(),
            r@ == Map::<Key, Bucket>::empty(),
    {
        let mut shards: Vec<Shard> = Vec::new();
        let mut i: usize = 0;
        while i < SHARDS
            invariant
                i <= SHARDS,
                shards@.len() == i,
                forall|j: int| 0 <= j < i ==> (#[trigger] shards@[j]).entries@.len() == 0,
            decreases SHARDS - i,
        {
            shards.push(Shard { entries: Vec::new() });
            i += 1;
        }
        let r = RateLimiter { shards };
        assert(r@ =~= Map::<Key, Bucket>::empty());
        r
    }

    /// Consume one token for `(route, ip)`. Returns `true` if allowed, `false`
    /// if the bucket is empty (rate-limited). `rate`/`capacity` are read from the
    /// current snapshot each call, so a reload that changes them takes effect.
    pub fn check(&mut self, route: &str, ip: IpAddress, rate: u64, capacity: u32, now_ns: u64) -> (r:
        bool)
        requires
            old(self).wf(),
        ensures
            final(self).wf(),
            r == bucket_of(old(self)@, (route@, ip), rate, capacity, now_ns).ready(
                rate,
                capacity,
                now_ns,
            ).passes(),
            final(self)@ == checked(old(self)@, (route@, ip), rate, capacity, now_ns),
    {
        let ghost key = (route@, ip);
        let ghost m = self@;
        let ghost before = self.shards@;
        let s: usize = shard_index(route, ip);
        let ghost held = before[s as int].held();
        let allowed = self.shards[s].check(route, ip, rate, capacity, now_ns);
        proof {
            let now = self.shards@;
            let after = charged(m, key, rate, capacity, now_ns);
            let mine = charged(held, key, rate, capacity, now_ns);
            assert(before[s as int].wf() && before[s as int].is_home(s as nat));
            assert(bucket_of(m, key, rate, capacity, now_ns) == bucket_of(
                held,
                key,
                rate,
                capacity,
                now_ns,
            ));
            assert(shard_keys(after, s as nat) =~= mine.dom());
            assert forall|i: int| 0 <= i < SHARDS implies (#[trigger] now[i]).wf() && now[i].is_home(
                i as nat,
            ) by {
                if i != s {
                    assert(now[i] == before[i]);
                }
            }
            assert(self@ =~= checked(m, key, rate, capacity, now_ns));
        }
        allowed
    }
}

/// A bucket that is back at capacity behaves as one that was never used: at any
/// later time, with the same parameters, both are ready alike.
pub proof fn full_bucket_is_like_fresh(b: Bucket, now_ns: u64, later_ns: u64)
    requires
        b.full_at(now_ns),
        b.last_ns <= now_ns <= later_ns,
    ensures
        b.ready(b.rate, b.capacity, later_ns) == Bucket::fresh(
            b.rate,
            b.capacity,
            later_ns,
        ).ready(b.rate, b.capacity, later_ns),
{
    let r = b.rate as nat;
    let x = (now_ns - b.last_ns) as nat;
    let y = (later_ns - b.last_ns) as nat;
    assert(r * x <= r * y) by (nonlinear_arith)
        requires
            x <= y,
    ;
    lemma_gain(b, now_ns);
    lemma_gain(b, later_ns);
}

proof fn lemma_gain(b: Bucket, now_ns: u64)
    requires
        b.last_ns <= now_ns,
    ensures
        b.gain(now_ns) == b.rate as nat * (now_ns - b.last_ns) as nat,
{
    if now_ns == b.last_ns {
        assert(b.rate as nat * 0nat == 0) by (nonlinear_arith);
    }
}

/// One client's or one route's requests never change what another may do, nor does
/// the sweep: for any other key the bucket is ready alike with and without them.
pub proof fn budgets_are_independent(
    m: Map<Key, Bucket>,
    key: Key,
    rate: u64,
    capacity: u32,
    now_ns: u64,
    other: Key,
    other_rate: u64,
    other_capacity: u32,
    later_ns: u64,
)
    requires
        other != key,
        now_ns <= later_ns,
        m.contains_key(other) ==> m[other].rate == other_rate && m[other].capacity
            == other_capacity && m[other].last_ns <= now_ns,
    ensures
        ({
            let after = checked(m, key, rate, capacity, now_ns);
            bucket_of(after, other, other_rate, other_capacity, later_ns).ready(
                other_rate,
                other_capacity,
                later_ns,
            ) == bucket_of(m, other, other_rate, other_capacity, later_ns).ready(
                other_rate,
                other_capacity,
                later_ns,
            )
        }),
{
    if m.contains_key(other) && m[other].full_at(now_ns) {
        full_bucket_is_like_fresh(m[other], now_ns, later_ns);
    }
}

/// A bucket after requests at these times.
pub open spec fn left(b: Bucket, rate: u64, capacity: u32, times: Seq<u64>) -> Bucket
    decreases times.len(),
{
    if times.len() == 0 {
        b
    } else {
        left(b, rate, capacity, times.drop_last()).ready(rate, capacity, times.last()).taken()
    }
}

/// How many of the requests at these times pass.
pub open spec fn served(b: Bucket, rate: u64, capacity: u32, times: Seq<u64>) -> nat
    decreases times.len(),
{
    if times.len() == 0 {
        0
    } else {
        served(b, rate, capacity, times.drop_last()) + if left(
            b,
            rate,
            capacity,
            times.drop_last(),
        ).ready(rate, capacity, times.last()).passes() {
            1nat
        } else {
            0
        }
    }
}

/// At one instant a new client gets `capacity` requests through, and no more.
pub proof fn burst_then_blocked(rate: u64, capacity: u32, now_ns: u64, n: nat)
    ensures
        served(
            Bucket::fresh(rate, capacity, now_ns),
            rate,
            capacity,
            Seq::new(n, |i: int| now_ns),
        ) == if n < capacity {
            n
        } else {
            capacity as nat
        },
        left(
            Bucket::fresh(rate, capacity, now_ns),
            rate,
            capacity,
            Seq::new(n, |i: int| now_ns),
        ) == (Bucket {
            tokens: if n < capacity {
                ((capacity - n) * TOKEN) as u128
            } else {
                0
            },
            last_ns: now_ns,
            rate,
            capacity,
        }),
    decreases n,
{
    let times = Seq::new(n, |i: int| now_ns);
    if n > 0 {
        assert(times.drop_last() =~= Seq::new((n - 1) as nat, |i: int| now_ns));
        burst_then_blocked(rate, capacity, now_ns, (n - 1) as nat);
    }
}

/// A client never gets more through than its bucket holds plus what comes in over
/// the time: `capacity` at once, and from then on the rate.
pub proof fn long_run_rate_is_bounded(b: Bucket, rate: u64, capacity: u32, times: Seq<u64>)
    requires
        times.len() > 0,
        b.last_ns <= times[0],
        forall|i: int, j: int| 0 <= i <= j < times.len() ==> times[i] <= times[j],
        b.tokens <= full(capacity),
    ensures
        served(b, rate, capacity, times) * TOKEN <= full(capacity) + rate as nat * (times.last()
            - b.last_ns) as nat,
{
    lemma_account(b, rate, capacity, times);
}

proof fn lemma_account(b: Bucket, rate: u64, capacity: u32, times: Seq<u64>)
    requires
        times.len() > 0 ==> b.last_ns <= times[0],
        forall|i: int, j: int| 0 <= i <= j < times.len() ==> times[i] <= times[j],
        b.tokens <= full(capacity),
    ensures
        ({
            let end = left(b, rate, capacity, times);
            let last = if times.len() > 0 {
                times.last()
            } else {
                b.last_ns
            };
            &&& end.last_ns == last
            &&& b.last_ns <= last
            &&& end.tokens <= full(capacity)
            &&& served(b, rate, capacity, times) * TOKEN + end.tokens <= b.tokens + rate as nat * (
            last - b.last_ns) as nat
        }),
    decreases times.len(),
{
    if times.len() == 0 {
        assert(rate as nat * 0nat == 0) by (nonlinear_arith);
    } else {
        let front = times.drop_last();
        assert forall|i: int, j: int| 0 <= i <= j < front.len() implies front[i] <= front[j] by {
            assert(times[i] <= times[j]);
        }
        if front.len() > 0 {
            assert(front[0] == times[0]);
        }
        lemma_account(b, rate, capacity, front);
        let prev = left(b, rate, capacity, front);
        let t = times.last();
        assert(prev.last_ns <= t) by {
            if front.len() > 0 {
                assert(times[front.len() - 1] <= times[times.len() - 1]);
            }
        }
        let current = Bucket { rate, capacity, ..prev };
        lemma_gain(current, t);
        let x = (prev.last_ns - b.last_ns) as nat;
        let y = (t - prev.last_ns) as nat;
        assert(rate as nat * (x + y) == rate as nat * x + rate as nat * y) by (nonlinear_arith);
        assert((t - b.last_ns) as nat == x + y);
        let before = served(b, rate, capacity, front);
        assert((before + 1) * TOKEN == before * TOKEN + TOKEN) by (nonlinear_arith);
    }
}

}
