//! Upstream groups at run time: weighted selection of a healthy target, and the
//! retry policy.

use vstd::prelude::*;
use crate::health::{HealthCheckSettings, HealthState};
use crate::model::RetryConfig;
use crate::schedule::{lemma_occurrences_add, occurrences};
use crate::text::text_eq;
use crate::uri::{is_method, is_token};

verus! {

/// Parsed retry policy for an upstream (only present when retries are enabled).
#[derive(Debug, Clone)]
pub struct RetryPolicy {
    /// Max total tries (>= 1).
    pub max_attempts: u32,
    pub methods: Vec<String>,
    pub on_connect_failure: bool,
    pub on_5xx: bool,
}

/// Whether a text stands in a list.
pub open spec fn listed(list: Seq<String>, text: Seq<char>) -> bool {
    exists|i: int| 0 <= i < list.len() && #[trigger] list[i]@ == text
}

/// Whether a text stands in a list.
pub fn is_listed(list: &Vec<String>, text: &str) -> (r: bool)
    ensures
        r == listed(list@, text@),
{
    let mut i: usize = 0;
    while i < list.len()
        invariant
            i <= list.len(),
            forall|j: int| 0 <= j < i ==> #[trigger] list@[j]@ != text@,
        decreases list.len() - i,
    {
        if text_eq(list[i].as_str(), text) {
            return true;
        }
        i += 1;
    }
    false
}

impl RetryPolicy {
    /// Whether requests with this method may be tried again.
    pub open spec fn allows(self, method: Seq<char>) -> bool {
        listed(self.methods@, method)
    }

    /// `self` is the policy that `cfg` asks for: at least one try, the listed
    /// methods that are valid, and the listed conditions.
    pub open spec fn follows(self, cfg: RetryConfig) -> bool {
        &&& self.max_attempts == if cfg.attempts == 0 { 1 } else { cfg.attempts }
        &&& forall|m: Seq<char>| #[trigger]
            self.allows(m) == (is_token(m) && listed(cfg.methods@, m))
        &&& self.on_connect_failure == (listed(cfg.retry_on@, "connect_error"@) || listed(
            cfg.retry_on@,
            "connect_timeout"@,
        ))
        &&& self.on_5xx == listed(cfg.retry_on@, "upstream_5xx"@)
    }

    /// The policy that an enabled retry config asks for.
    pub fn from_config(cfg: &RetryConfig) -> (r: Option<Self>)
        ensures
            match r {
                Some(policy) => cfg.enabled && policy.follows(*cfg),
                None => !cfg.enabled,
            },
    {
        if !cfg.enabled {
            return None;
        }
        let mut methods: Vec<String> = Vec::new();
        let mut i: usize = 0;
        while i < cfg.methods.len()
            invariant
                i <= cfg.methods.len(),
                forall|m: Seq<char>| #[trigger]
                    listed(methods@, m) == (is_token(m) && listed(cfg.methods@.take(i as int), m)),
            decreases cfg.methods.len() - i,
        {
            let method = &cfg.methods[i];
            let ghost before = methods@;
            let ghost seen = cfg.methods@.take(i as int);
            let ghost now = cfg.methods@.take(i + 1);
            if is_method(method.as_str()) {
                methods.push(method.clone());
            }
            assert forall|m: Seq<char>| #[trigger] listed(methods@, m) == (is_token(m) && listed(
                now,
                m,
            )) by {
                assert(listed(before, m) == (is_token(m) && listed(seen, m)));
                assert(now == seen.push(*method));
                lemma_listed_push(seen, *method, m);
                if is_token(method@) {
                    lemma_listed_push(before, *method, m);
                }
            }
            i += 1;
        }
        assert(cfg.methods@.take(cfg.methods@.len() as int) == cfg.methods@);
        let policy = RetryPolicy {
            max_attempts: if cfg.attempts == 0 { 1 } else { cfg.attempts },
            methods,
            on_connect_failure: is_listed(&cfg.retry_on, "connect_error") || is_listed(
                &cfg.retry_on,
                "connect_timeout",
            ),
            on_5xx: is_listed(&cfg.retry_on, "upstream_5xx"),
        };
        assert forall|m: Seq<char>| #[trigger] policy.allows(m) == (is_token(m) && listed(
            cfg.methods@,
            m,
        )) by {
            assert(policy.allows(m) == listed(methods@, m));
        }
        Some(policy)
    }

    /// Whether this method is eligible for retries (so its body may be buffered).
    pub fn allows_method(&self, method: &str) -> (r: bool)
        ensures
            r == self.allows(method@),
    {
        is_listed(&self.methods, method)
    }
}

proof fn lemma_listed_push(list: Seq<String>, s: String, text: Seq<char>)
    ensures
        listed(list.push(s), text) == (listed(list, text) || s@ == text),
{
    let longer = list.push(s);
    if listed(list, text) {
        let i = choose|i: int| 0 <= i < list.len() && #[trigger] list[i]@ == text;
        assert(longer[i]@ == text);
    }
    if s@ == text {
        assert(longer[list.len() as int]@ == text);
    }
    if listed(longer, text) {
        let i = choose|i: int| 0 <= i < longer.len() && #[trigger] longer[i]@ == text;
        if i < list.len() {
            assert(list[i]@ == text);
        }
    }
}

#[derive(Debug, Clone)]
pub struct TargetRuntime {
    pub url: String,
    pub state: HealthState,
}

#[derive(Debug, Clone)]
pub struct UpstreamRuntime {
    pub targets: Vec<TargetRuntime>,
    /// Active-health settings when health management is enabled for this upstream.
    pub health: Option<HealthCheckSettings>,
    /// Retry policy when retries are enabled for this upstream.
    pub retry: Option<RetryPolicy>,
    /// Accept any certificate of an `https` target.
    pub tls_insecure_skip_verify: bool,
    /// Precomputed weighted schedule: target indices, each appearing in
    /// proportion to its weight (gcd-reduced, interleaved). Equal weights reduce
    /// to plain round-robin. Indexed via `next`.
    pub schedule: Vec<usize>,
    pub next: usize,
}

/// The counter `k` steps behind `next`; it goes round behind its last value.
pub open spec fn advanced(next: usize, k: nat) -> usize {
    ((next + k) % (usize::MAX + 1)) as usize
}

impl UpstreamRuntime {
    /// Every entry of the schedule names a target.
    pub open spec fn wf(self) -> bool {
        forall|i: int|
            0 <= i < self.schedule@.len() ==> (#[trigger] self.schedule@[i]) < self.targets@.len()
    }

    /// The target whose turn it is `k` steps from now.
    pub open spec fn turn(self, k: nat) -> int {
        self.schedule@[advanced(self.next, k) as int % self.schedule@.len() as int] as int
    }

    /// Whether the target whose turn it is `k` steps from now is healthy.
    pub open spec fn turn_healthy(self, k: nat) -> bool {
        self.targets@[self.turn(k)].state@.healthy
    }

    /// The first step from `k` on, within one pass over the schedule, at which it is
    /// a healthy target's turn.
    pub open spec fn first_healthy(self, k: nat) -> Option<nat>
        decreases self.schedule@.len() - k,
    {
        if k >= self.schedule@.len() {
            None
        } else if self.turn_healthy(k) {
            Some(k)
        } else {
            self.first_healthy(k + 1)
        }
    }

    /// The target that is picked.
    pub open spec fn pick(self) -> Option<int> {
        match self.first_healthy(0) {
            Some(k) => Some(self.turn(k)),
            None => None,
        }
    }

    /// The state after a pick: the counter moves by the turns that were taken.
    pub open spec fn picked(self) -> Self {
        UpstreamRuntime {
            next: match self.first_healthy(0) {
                Some(k) => advanced(self.next, k + 1),
                None => advanced(self.next, self.schedule@.len()),
            },
            ..self
        }
    }

    /// The first step from `k` on, within one pass over the schedule, at which it is the
    /// turn of a healthy target other than the one that failed.
    pub open spec fn first_besides(self, failed: Option<usize>, k: nat) -> Option<nat>
        decreases self.schedule@.len() - k,
    {
        if k >= self.schedule@.len() {
            None
        } else if self.turn_healthy(k) && !(failed matches Some(f) && self.turn(k) == f) {
            Some(k)
        } else {
            self.first_besides(failed, k + 1)
        }
    }

    /// The target that is picked where one has just failed: another one, unless there
    /// is no other.
    pub open spec fn pick_other(self, failed: Option<usize>) -> Option<int> {
        match self.first_besides(failed, 0) {
            Some(k) => Some(self.turn(k)),
            None => self.pick(),
        }
    }

    /// The state after such a pick: the counter moves by the turns that were taken.
    pub open spec fn picked_other(self, failed: Option<usize>) -> Self {
        match self.first_besides(failed, 0) {
            Some(k) => UpstreamRuntime { next: advanced(self.next, k + 1), ..self },
            None => self.picked(),
        }
    }

    /// Weighted round-robin over the healthy targets. Walks the schedule from the
    /// next position, skipping unhealthy targets; traffic redistributes across the
    /// remaining targets in proportion to their weights. Gives the index of the
    /// target.
    pub fn pick_target(&mut self) -> (r: Option<usize>)
        requires
            old(self).wf(),
        ensures
            *final(self) == old(self).picked(),
            final(self).wf(),
            match r {
                Some(i) => old(self).pick() == Some(i as int) && i < old(self).targets@.len()
                    && old(self).targets@[i as int].state@.healthy,
                None => old(self).pick() is None,
            },
    {
        let ghost start = *self;
        let len: usize = self.schedule.len();
        let mut k: usize = 0;
        proof {
            lemma_advanced_step(start.next, 0);
        }
        while k < len
            invariant
                k <= len,
                start == *old(self),
                len == start.schedule@.len(),
                *self == (UpstreamRuntime { next: advanced(start.next, k as nat), ..start }),
                start.wf(),
                start.first_healthy(0) == start.first_healthy(k as nat),
            decreases len - k,
        {
            let slot: usize = self.next % len;
            let ghost here = self.next;
            self.next = if self.next == usize::MAX { 0 } else { self.next + 1 };
            proof {
                lemma_advanced_step(start.next, k as nat);
                assert(start.turn(k as nat) == start.schedule@[slot as int]);
            }
            let index: usize = self.schedule[slot];
            if self.targets[index].state.is_healthy() {
                assert(start.turn_healthy(k as nat));
                return Some(index);
            }
            k += 1;
        }
        None
    }

    /// Weighted round-robin over the healthy targets that passes over the one that
    /// failed, while it is another's turn within the pass. Where that one alone is left,
    /// it is picked again if it is healthy. Gives the index of the target.
    pub fn pick_other_target(&mut self, failed: Option<usize>) -> (r: Option<usize>)
        requires
            old(self).wf(),
        ensures
            *final(self) == old(self).picked_other(failed),
            final(self).wf(),
            match r {
                Some(i) => old(self).pick_other(failed) == Some(i as int) && i
                    < old(self).targets@.len() && old(self).targets@[i as int].state@.healthy,
                None => old(self).pick_other(failed) is None,
            },
    {
        let len: usize = self.schedule.len();
        let mut next: usize = self.next;
        let mut k: usize = 0;
        proof {
            lemma_advanced_step(self.next, 0);
        }
        while k < len
            invariant
                k <= len,
                *self == *old(self),
                len == self.schedule@.len(),
                next == advanced(self.next, k as nat),
                self.wf(),
                self.first_besides(failed, 0) == self.first_besides(failed, k as nat),
            decreases len - k,
        {
            let slot: usize = next % len;
            proof {
                lemma_advanced_step(self.next, k as nat);
                assert(self.turn(k as nat) == self.schedule@[slot as int]);
            }
            next = if next == usize::MAX { 0 } else { next + 1 };
            let index: usize = self.schedule[slot];
            let just_failed = match failed {
                Some(f) => f == index,
                None => false,
            };
            if !just_failed && self.targets[index].state.is_healthy() {
                assert(self.turn_healthy(k as nat));
                self.next = next;
                return Some(index);
            }
            k += 1;
        }
        self.pick_target()
    }
}

proof fn lemma_advanced_step(next: usize, k: nat)
    ensures
        advanced(next, 0) == next,
        advanced(next, k + 1) == if advanced(next, k) == usize::MAX {
            0
        } else {
            advanced(next, k) + 1
        },
{
    let m = usize::MAX + 1;
    let x = next + k;
    assert(0 <= x % m < m) by {
        vstd::arithmetic::div_mod::lemma_mod_bound(x as int, m);
    }
    vstd::arithmetic::div_mod::lemma_small_mod(next as nat, m as nat);
    if x % m == m - 1 {
        vstd::arithmetic::div_mod::lemma_mod_add_multiples_vanish(0, m);
        assert((x + 1) % m == 0) by {
            vstd::arithmetic::div_mod::lemma_add_mod_noop(x as int, 1, m);
            assert((m - 1 + 1) % m == 0) by {
                vstd::arithmetic::div_mod::lemma_mod_self_0(m);
            }
            vstd::arithmetic::div_mod::lemma_small_mod(1nat, m as nat);
        }
    } else {
        assert((x + 1) % m == x % m + 1) by {
            vstd::arithmetic::div_mod::lemma_add_mod_noop(x as int, 1, m);
            vstd::arithmetic::div_mod::lemma_small_mod(1nat, m as nat);
            vstd::arithmetic::div_mod::lemma_small_mod((x % m + 1) as nat, m as nat);
        }
    }
}

proof fn lemma_advanced_near(next: usize, k: nat)
    requires
        next + k <= usize::MAX,
    ensures
        advanced(next, k) == next + k,
{
    vstd::arithmetic::div_mod::lemma_small_mod((next + k) as nat, (usize::MAX + 1) as nat);
}

/// Every position of the schedule has its turn within one pass.
proof fn lemma_turn_comes(next: nat, len: nat, p: nat) -> (k: nat)
    requires
        p < len,
    ensures
        k < len,
        (next + k) % len == p,
{
    let r = next % len;
    assert(0 <= r < len) by (nonlinear_arith)
        requires
            r == next % len,
            len > 0,
    ;
    let k: nat = if p >= r {
        (p - r) as nat
    } else {
        (p + len - r) as nat
    };
    vstd::arithmetic::div_mod::lemma_fundamental_div_mod(next as int, len as int);
    let q = next / len;
    assert(len * q == q * len) by (nonlinear_arith);
    if p >= r {
        assert(next + k == q * len + p);
        vstd::arithmetic::div_mod::lemma_fundamental_div_mod_converse(
            (next + k) as int,
            len as int,
            q as int,
            p as int,
        );
    } else {
        assert((q + 1) * len == q * len + len) by (nonlinear_arith);
        assert(next + k == (q + 1) * len + p);
        vstd::arithmetic::div_mod::lemma_fundamental_div_mod_converse(
            (next + k) as int,
            len as int,
            (q + 1) as int,
            p as int,
        );
    }
    k
}

proof fn lemma_first_healthy(u: UpstreamRuntime, from: nat, k: nat)
    requires
        from <= k < u.schedule@.len(),
        u.turn_healthy(k),
    ensures
        u.first_healthy(from) is Some,
    decreases k - from,
{
    if !u.turn_healthy(from) {
        lemma_first_healthy(u, from + 1, k);
    }
}

proof fn lemma_first_is_healthy(u: UpstreamRuntime, from: nat)
    ensures
        u.first_healthy(from) matches Some(k) ==> from <= k < u.schedule@.len() && u.turn_healthy(
            k,
        ),
    decreases u.schedule@.len() - from,
{
    if from < u.schedule@.len() && !u.turn_healthy(from) {
        lemma_first_is_healthy(u, from + 1);
    }
}

/// No target is picked only where every target in the schedule is unhealthy, as
/// long as the counter does not go round within the pass.
pub proof fn none_only_when_all_unhealthy(u: UpstreamRuntime)
    requires
        u.wf(),
        u.next + u.schedule@.len() <= usize::MAX,
    ensures
        u.pick() is None <==> (forall|i: int|
            0 <= i < u.schedule@.len()
                ==> !u.targets@[#[trigger] u.schedule@[i] as int].state@.healthy),
{
    let len = u.schedule@.len();
    if u.pick() is None {
        assert forall|i: int| 0 <= i < len implies !u.targets@[
            #[trigger] u.schedule@[i] as int
        ].state@.healthy by {
            let k = lemma_turn_comes(u.next as nat, len, i as nat);
            lemma_advanced_near(u.next, k);
            assert(u.turn(k) == u.schedule@[i]);
            if u.turn_healthy(k) {
                lemma_first_healthy(u, 0, k);
            }
        }
    } else {
        lemma_first_is_healthy(u, 0);
        let k = u.first_healthy(0)->0;
        lemma_advanced_near(u.next, k);
        let p = (u.next + k) as int % len as int;
        assert(0 <= p < len) by {
            vstd::arithmetic::div_mod::lemma_mod_bound((u.next + k) as int, len as int);
        }
        assert(u.turn(k) == u.schedule@[p] as int);
    }
}

proof fn lemma_first_besides(u: UpstreamRuntime, failed: usize, from: nat, k: nat)
    requires
        from <= k < u.schedule@.len(),
        u.turn_healthy(k),
        u.turn(k) != failed,
    ensures
        u.first_besides(Some(failed), from) matches Some(first) && u.turn_healthy(first) && u.turn(
            first,
        ) != failed,
    decreases k - from,
{
    if !u.turn_healthy(from) || u.turn(from) == failed {
        lemma_first_besides(u, failed, from + 1, k);
    }
}

/// Where a target has failed and another one in the schedule is healthy, a healthy
/// target other than the failed one is picked, as long as the counter does not go round
/// within the pass.
pub proof fn another_target_is_picked(u: UpstreamRuntime, failed: usize, other: int)
    requires
        u.wf(),
        0 <= other < u.schedule@.len(),
        u.schedule@[other] != failed,
        u.targets@[u.schedule@[other] as int].state@.healthy,
        u.next + u.schedule@.len() <= usize::MAX,
    ensures
        u.pick_other(Some(failed)) matches Some(i) && i != failed && u.targets@[i].state@.healthy,
{
    let k = lemma_turn_comes(u.next as nat, u.schedule@.len(), other as nat);
    lemma_advanced_near(u.next, k);
    assert(u.turn(k) == u.schedule@[other]);
    lemma_first_besides(u, failed, 0, k);
}

proof fn lemma_besides_keeps(u: UpstreamRuntime, failed: Option<usize>, from: nat)
    requires
        match u.first_healthy(from) {
            Some(k) => !(failed matches Some(f) && u.turn(k) == f),
            None => true,
        },
    ensures
        u.first_besides(failed, from) == u.first_healthy(from),
    decreases u.schedule@.len() - from,
{
    if from < u.schedule@.len() && !u.turn_healthy(from) {
        lemma_besides_keeps(u, failed, from + 1);
    }
}

/// Where the failed target is not the one that the round-robin comes to, or none has
/// failed, the pick is that of the round-robin.
pub proof fn other_turns_are_kept(u: UpstreamRuntime, failed: Option<usize>)
    requires
        !(failed matches Some(f) && u.pick() == Some(f as int)),
    ensures
        u.pick_other(failed) == u.pick(),
        u.picked_other(failed) == u.picked(),
{
    lemma_besides_keeps(u, failed, 0);
}

impl UpstreamRuntime {
    /// What `n` picks give, one after the other.
    pub open spec fn run(self, n: nat) -> Seq<Option<int>>
        decreases n,
    {
        if n == 0 {
            Seq::empty()
        } else {
            seq![self.pick()] + self.picked().run((n - 1) as nat)
        }
    }

    pub open spec fn all_healthy(self) -> bool {
        forall|i: int| 0 <= i < self.targets@.len() ==> (#[trigger] self.targets@[i]).state@.healthy
    }
}

/// While every target is healthy, picks walk the schedule in order and start over
/// at its end.
pub proof fn healthy_targets_take_turns(u: UpstreamRuntime, n: nat)
    requires
        u.wf(),
        u.all_healthy(),
        u.schedule@.len() > 0,
        u.next + n <= usize::MAX,
    ensures
        u.run(n).len() == n,
        forall|j: int|
            0 <= j < n ==> #[trigger] u.run(n)[j] == Some(
                u.schedule@[(u.next + j) % u.schedule@.len() as int] as int,
            ),
    decreases n,
{
    if n > 0 {
        let len = u.schedule@.len();
        lemma_advanced_near(u.next, 0);
        lemma_advanced_near(u.next, 1);
        let p = u.next as int % len as int;
        assert(0 <= p < len) by {
            vstd::arithmetic::div_mod::lemma_mod_bound(u.next as int, len as int);
        }
        assert(u.turn(0) == u.schedule@[p]);
        assert(u.turn_healthy(0));
        assert(u.first_healthy(0) == Some(0nat));
        let v = u.picked();
        assert(v.next == u.next + 1);
        healthy_targets_take_turns(v, (n - 1) as nat);
        assert forall|j: int| 0 <= j < n implies #[trigger] u.run(n)[j] == Some(
            u.schedule@[(u.next + j) % len as int] as int,
        ) by {
            if j == 0 {
                assert(u.run(n)[0] == u.pick());
            } else {
                assert(u.run(n)[j] == v.run((n - 1) as nat)[j - 1]);
                assert(v.next + (j - 1) == u.next + j);
            }
        }
    }
}

/// One pass over the schedule from anywhere picks every target as often as it
/// stands in the schedule.
pub proof fn full_cycle_honors_schedule(u: UpstreamRuntime, target: usize)
    requires
        u.wf(),
        u.all_healthy(),
        u.schedule@.len() > 0,
        u.next + u.schedule@.len() <= usize::MAX,
    ensures
        occurrences(
            u.run(u.schedule@.len()).map_values(|p: Option<int>| p->0 as usize),
            target,
        ) == occurrences(u.schedule@, target),
{
    let s = u.schedule@;
    let len = s.len();
    healthy_targets_take_turns(u, len);
    let picks = u.run(len).map_values(|p: Option<int>| p->0 as usize);
    let r = u.next as int % len as int;
    assert(0 <= r < len) by {
        vstd::arithmetic::div_mod::lemma_mod_bound(u.next as int, len as int);
    }
    let q = u.next as int / len as int;
    vstd::arithmetic::div_mod::lemma_fundamental_div_mod(u.next as int, len as int);
    assert forall|j: int| 0 <= j < len implies #[trigger] picks[j] == (s.skip(r) + s.take(r))[j] by {
        assert(u.run(len)[j] == Some(s[(u.next + j) % len as int] as int));
        if r + j < len {
            vstd::arithmetic::div_mod::lemma_fundamental_div_mod_converse(
                u.next + j,
                len as int,
                q,
                r + j,
            );
        } else {
            assert(len * (q + 1) == len * q + len) by (nonlinear_arith);
            vstd::arithmetic::div_mod::lemma_fundamental_div_mod_converse(
                u.next + j,
                len as int,
                q + 1,
                r + j - len,
            );
        }
    }
    assert(picks == s.skip(r) + s.take(r));
    lemma_occurrences_add(s.skip(r), s.take(r), target);
    lemma_occurrences_add(s.take(r), s.skip(r), target);
    assert(s.take(r) + s.skip(r) == s);
}

impl UpstreamRuntime {
    /// The entries of a list of targets that are healthy, in their order.
    pub open spec fn healthy_of(self, entries: Seq<usize>) -> Seq<usize>
        decreases entries.len(),
    {
        if entries.len() == 0 {
            Seq::empty()
        } else if self.targets@[entries.last() as int].state@.healthy {
            self.healthy_of(entries.drop_last()).push(entries.last())
        } else {
            self.healthy_of(entries.drop_last())
        }
    }

    /// The schedule as it comes from the next position on.
    pub open spec fn coming(self) -> Seq<usize> {
        if self.schedule@.len() == 0 {
            Seq::empty()
        } else {
            let start = self.next as int % self.schedule@.len() as int;
            self.schedule@.skip(start) + self.schedule@.take(start)
        }
    }

    /// How many positions of the schedule have a healthy target.
    pub open spec fn healthy_positions(self) -> nat {
        self.healthy_of(self.schedule@).len()
    }
}

proof fn lemma_healthy_of_add(u: UpstreamRuntime, a: Seq<usize>, b: Seq<usize>)
    ensures
        u.healthy_of(a + b) == u.healthy_of(a) + u.healthy_of(b),
    decreases b.len(),
{
    if b.len() == 0 {
        assert(a + b == a);
    } else {
        assert((a + b).drop_last() == a + b.drop_last());
        lemma_healthy_of_add(u, a, b.drop_last());
    }
}

proof fn lemma_healthy_of_occurrences(u: UpstreamRuntime, entries: Seq<usize>, target: usize)
    ensures
        occurrences(u.healthy_of(entries), target)
            == if u.targets@[target as int].state@.healthy {
            occurrences(entries, target)
        } else {
            0
        },
    decreases entries.len(),
{
    if entries.len() > 0 {
        lemma_healthy_of_occurrences(u, entries.drop_last(), target);
        if u.targets@[entries.last() as int].state@.healthy {
            let front = u.healthy_of(entries.drop_last());
            assert(front.push(entries.last()).drop_last() == front);
        }
    }
}

proof fn lemma_healthy_of_are_healthy(u: UpstreamRuntime, entries: Seq<usize>)
    ensures
        forall|j: int|
            0 <= j < u.healthy_of(entries).len() ==> u.targets@[
                #[trigger] u.healthy_of(entries)[j] as int
            ].state@.healthy,
    decreases entries.len(),
{
    if entries.len() > 0 {
        lemma_healthy_of_are_healthy(u, entries.drop_last());
        let front = u.healthy_of(entries.drop_last());
        assert forall|j: int| 0 <= j < u.healthy_of(entries).len() implies u.targets@[
            #[trigger] u.healthy_of(entries)[j] as int
        ].state@.healthy by {
            if j < front.len() {
                assert(u.healthy_of(entries)[j] == front[j]);
            }
        }
    }
}

/// Where a list has a healthy entry, its first healthy one stands somewhere in it.
proof fn lemma_some_healthy(u: UpstreamRuntime, entries: Seq<usize>) -> (k: int)
    requires
        u.healthy_of(entries).len() > 0,
    ensures
        0 <= k < entries.len(),
        u.targets@[entries[k] as int].state@.healthy,
    decreases entries.len(),
{
    if u.targets@[entries.last() as int].state@.healthy {
        entries.len() - 1
    } else {
        lemma_some_healthy(u, entries.drop_last())
    }
}

/// What comes from the next position on is what has its turn.
proof fn lemma_coming(u: UpstreamRuntime, k: nat)
    requires
        k < u.schedule@.len(),
        u.next + u.schedule@.len() <= usize::MAX,
    ensures
        u.coming().len() == u.schedule@.len(),
        u.turn(k) == u.coming()[k as int],
{
    let len = u.schedule@.len();
    let r = u.next as int % len as int;
    let q = u.next as int / len as int;
    vstd::arithmetic::div_mod::lemma_mod_bound(u.next as int, len as int);
    vstd::arithmetic::div_mod::lemma_fundamental_div_mod(u.next as int, len as int);
    lemma_advanced_near(u.next, k);
    if r + k < len {
        vstd::arithmetic::div_mod::lemma_fundamental_div_mod_converse(
            u.next + k,
            len as int,
            q,
            r + k,
        );
    } else {
        assert(len * (q + 1) == len * q + len) by (nonlinear_arith);
        vstd::arithmetic::div_mod::lemma_fundamental_div_mod_converse(
            u.next + k,
            len as int,
            q + 1,
            r + k - len,
        );
    }
}

/// One step on, every turn comes one step sooner.
proof fn lemma_step_on(u: UpstreamRuntime, v: UpstreamRuntime, j: nat, k: nat)
    requires
        v == (UpstreamRuntime { next: (u.next + 1) as usize, ..u }),
        j <= k,
        k + 1 < u.schedule@.len(),
        u.next + k + 1 < usize::MAX,
        v.turn_healthy(k),
    ensures
        u.first_healthy(j + 1) matches Some(m) && v.first_healthy(j) == Some((m - 1) as nat) && m
            >= 1 && u.turn(m) == v.turn((m - 1) as nat) && m <= k + 1,
    decreases k - j,
{
    lemma_advanced_near(u.next, j + 1);
    lemma_advanced_near(v.next, j);
    assert(u.turn(j + 1) == v.turn(j));
    if !v.turn_healthy(j) {
        lemma_step_on(u, v, j + 1, k);
    }
}

/// The upstream `a` turns on.
spec fn turned(u: UpstreamRuntime, a: nat) -> UpstreamRuntime {
    UpstreamRuntime { next: (u.next + a) as usize, ..u }
}

/// A healthy target's turn is taken.
proof fn lemma_turn_taken(u: UpstreamRuntime, a: nat)
    requires
        a < u.schedule@.len(),
        u.next + u.schedule@.len() <= usize::MAX,
        u.targets@[u.coming()[a as int] as int].state@.healthy,
    ensures
        turned(u, a).pick() == Some(u.coming()[a as int] as int),
        turned(u, a).picked() == turned(u, a + 1),
{
    let v = turned(u, a);
    lemma_coming(u, a);
    lemma_advanced_near(u.next, a);
    lemma_advanced_near(v.next, 0);
    lemma_advanced_near(v.next, 1);
    assert(v.turn(0) == u.turn(a));
    assert(v.turn_healthy(0));
    assert(v.first_healthy(0) == Some(0nat));
}

/// An unhealthy target's turn is skipped, where a healthy one comes later in the pass.
proof fn lemma_turn_skipped(u: UpstreamRuntime, a: nat, k: nat)
    requires
        a < k < u.schedule@.len(),
        u.next + u.schedule@.len() <= usize::MAX,
        !u.targets@[u.coming()[a as int] as int].state@.healthy,
        u.targets@[u.coming()[k as int] as int].state@.healthy,
    ensures
        turned(u, a).pick() == turned(u, a + 1).pick(),
        turned(u, a).picked() == turned(u, a + 1).picked(),
{
    let v = turned(u, a);
    let w = turned(u, a + 1);
    let p = (k - a - 1) as nat;
    lemma_coming(u, a);
    lemma_coming(u, k);
    lemma_advanced_near(u.next, a);
    lemma_advanced_near(u.next, k);
    lemma_advanced_near(v.next, 0);
    lemma_advanced_near(w.next, p);
    assert(v.turn(0) == u.turn(a));
    assert(!v.turn_healthy(0));
    assert(w.turn(p) == u.turn(k));
    lemma_step_on(v, w, 0, p);
    let m = v.first_healthy(1)->0;
    assert(v.first_healthy(0) == Some(m));
    lemma_advanced_near(v.next, m + 1);
    lemma_advanced_near(w.next, m);
}

/// The picks from the `a`-th turn of a pass on are the healthy entries that are left of
/// the pass.
proof fn lemma_pass(u: UpstreamRuntime, a: nat)
    requires
        a <= u.schedule@.len(),
        u.coming().len() == u.schedule@.len(),
        u.next + u.schedule@.len() <= usize::MAX,
    ensures
        turned(u, a).run(u.healthy_of(u.coming().skip(a as int)).len()) == u.healthy_of(
            u.coming().skip(a as int),
        ).map_values(|i: usize| Some(i as int)),
    decreases u.schedule@.len() - a,
{
    let all = u.coming();
    let v = turned(u, a);
    let rest = u.healthy_of(all.skip(a as int));
    let picks = rest.map_values(|i: usize| Some(i as int));
    if a == u.schedule@.len() {
        assert(all.skip(a as int) =~= Seq::<usize>::empty());
        assert(v.run(0) =~= picks);
    } else {
        let w = turned(u, a + 1);
        let later = u.healthy_of(all.skip(a + 1int));
        let now = seq![all[a as int]];
        lemma_pass(u, a + 1);
        assert(all.skip(a as int) =~= now + all.skip(a + 1int));
        lemma_healthy_of_add(u, now, all.skip(a + 1int));
        assert(now.drop_last() =~= Seq::<usize>::empty());
        assert(u.healthy_of(now.drop_last()) =~= Seq::<usize>::empty());
        if u.targets@[all[a as int] as int].state@.healthy {
            assert(u.healthy_of(now) =~= now);
            lemma_turn_taken(u, a);
            assert(rest =~= now + later);
            assert(v.run(rest.len()) == seq![v.pick()] + w.run(later.len()));
            assert(v.run(rest.len()) =~= picks);
        } else {
            assert(u.healthy_of(now) =~= Seq::<usize>::empty());
            assert(rest =~= later);
            if later.len() > 0 {
                let p = lemma_some_healthy(u, all.skip(a + 1int));
                lemma_turn_skipped(u, a, (a + 1 + p) as nat);
                assert(v.run(rest.len()) == w.run(rest.len()));
            } else {
                assert(v.run(0) =~= w.run(0));
            }
        }
    }
}

/// Picks walk the healthy entries of the schedule in order: over one pass, each pick
/// is the next entry whose target is healthy, and unhealthy targets are skipped.
pub proof fn healthy_entries_take_turns(u: UpstreamRuntime)
    requires
        u.wf(),
        u.next + u.schedule@.len() <= usize::MAX,
    ensures
        u.run(u.healthy_positions()) == u.healthy_of(u.coming()).map_values(
            |i: usize| Some(i as int),
        ),
{
    let s = u.schedule@;
    let r = u.next as int % s.len() as int;
    if s.len() > 0 {
        lemma_coming(u, 0);
        vstd::arithmetic::div_mod::lemma_mod_bound(u.next as int, s.len() as int);
        lemma_healthy_of_add(u, s.skip(r), s.take(r));
        lemma_healthy_of_add(u, s.take(r), s.skip(r));
        assert(s.take(r) + s.skip(r) =~= s);
    }
    lemma_pass(u, 0);
    assert(u.coming().skip(0) =~= u.coming());
    assert(turned(u, 0) == u);
}

/// Traffic is spread over the healthy targets in proportion to their weights: as many
/// picks as the schedule has healthy positions give each healthy target as often as it
/// stands in the schedule, and no other target.
pub proof fn healthy_targets_keep_their_share(u: UpstreamRuntime, target: usize)
    requires
        u.wf(),
        target < u.targets@.len(),
        u.next + u.schedule@.len() <= usize::MAX,
    ensures
        ({
            let picks = u.run(u.healthy_positions());
            &&& picks.len() == u.healthy_positions()
            &&& forall|j: int|
                0 <= j < picks.len() ==> (#[trigger] picks[j] matches Some(i)
                    && u.targets@[i].state@.healthy)
            &&& occurrences(picks.map_values(|p: Option<int>| p->0 as usize), target)
                == if u.targets@[target as int].state@.healthy {
                occurrences(u.schedule@, target)
            } else {
                0
            }
        }),
{
    let s = u.schedule@;
    let r = u.next as int % s.len() as int;
    let entries = u.healthy_of(u.coming());
    let picks = u.run(u.healthy_positions());
    healthy_entries_take_turns(u);
    lemma_healthy_of_are_healthy(u, u.coming());
    assert(picks.map_values(|p: Option<int>| p->0 as usize) =~= entries);
    lemma_healthy_of_occurrences(u, u.coming(), target);
    if s.len() > 0 {
        vstd::arithmetic::div_mod::lemma_mod_bound(u.next as int, s.len() as int);
        lemma_healthy_of_add(u, s.skip(r), s.take(r));
        lemma_healthy_of_add(u, s.take(r), s.skip(r));
        lemma_occurrences_add(s.skip(r), s.take(r), target);
        lemma_occurrences_add(s.take(r), s.skip(r), target);
        assert(s.take(r) + s.skip(r) =~= s);
    }
}

}
