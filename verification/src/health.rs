//! Health management for upstream targets.
//!
//! Health is **opt-in** per upstream via `healthCheck.enabled`. When enabled it
//! covers both directions through a single [`HealthState::observe`]:
//! - **Active:** a background task probes each target's health path on an
//!   interval and records the result.
//! - **Passive:** each proxied request records its outcome (success, or a
//!   connect error / timeout / 5xx as a failure).
//!
//! Transitions use consecutive-count thresholds. Recovery is always driven by
//! active probes, so a passively-ejected target can come back. When health is
//! unmanaged, every target stays healthy and `observe` is a no-op.

use vstd::prelude::*;
use crate::clock::now_ms;

verus! {

/// Active-probe settings for one upstream, derived from an enabled health check.
#[derive(Debug, Clone, PartialEq, Eq)]
pub struct HealthCheckSettings {
    pub path: String,
    pub interval_seconds: u64,
    pub timeout_ms: u64,
}

/// Per-target health: a healthy flag plus consecutive success/failure counters.
#[derive(Debug, Clone, Copy, PartialEq, Eq, Structural)]
pub struct HealthState {
    healthy: bool,
    successes: u32,
    failures: u32,
    /// Unix epoch millis of the last observation; 0 means never observed.
    last_check_ms: u64,
    healthy_threshold: u32,
    unhealthy_threshold: u32,
    managed: bool,
}

/// What a health state holds.
#[verifier::ext_equal]
pub struct HealthView {
    pub healthy: bool,
    pub successes: u32,
    pub failures: u32,
    pub last_check_ms: u64,
    pub healthy_threshold: u32,
    pub unhealthy_threshold: u32,
    pub managed: bool,
}

impl View for HealthState {
    type V = HealthView;

    closed spec fn view(&self) -> HealthView {
        HealthView {
            healthy: self.healthy,
            successes: self.successes,
            failures: self.failures,
            last_check_ms: self.last_check_ms,
            healthy_threshold: self.healthy_threshold,
            unhealthy_threshold: self.unhealthy_threshold,
            managed: self.managed,
        }
    }
}

/// One more in a streak; the counter goes round behind its last value.
pub open spec fn next_count(n: u32) -> u32 {
    if n == u32::MAX {
        0
    } else {
        (n + 1) as u32
    }
}

impl HealthView {
    /// A target that was not observed yet. A threshold of 0 counts as 1.
    pub open spec fn fresh(managed: bool, healthy_threshold: u32, unhealthy_threshold: u32) -> Self {
        HealthView {
            healthy: true,
            successes: 0,
            failures: 0,
            last_check_ms: 0,
            healthy_threshold: if healthy_threshold == 0 { 1 } else { healthy_threshold },
            unhealthy_threshold: if unhealthy_threshold == 0 { 1 } else { unhealthy_threshold },
            managed,
        }
    }

    /// The state after one observation. A success ends the streak of failures and
    /// lengthens that of successes; at the threshold an unhealthy target becomes
    /// healthy. A failure does the reverse. Unmanaged health does not change.
    pub open spec fn observed(self, success: bool, now_ms: u64) -> Self {
        if !self.managed {
            self
        } else if success {
            HealthView {
                healthy: self.healthy || next_count(self.successes) >= self.healthy_threshold,
                successes: next_count(self.successes),
                failures: 0,
                last_check_ms: now_ms,
                ..self
            }
        } else {
            HealthView {
                healthy: self.healthy && next_count(self.failures) < self.unhealthy_threshold,
                successes: 0,
                failures: next_count(self.failures),
                last_check_ms: now_ms,
                ..self
            }
        }
    }

    /// The state after `n` observations that all went the same way.
    pub open spec fn repeated(self, success: bool, times: Seq<u64>) -> Self
        decreases times.len(),
    {
        if times.len() == 0 {
            self
        } else {
            self.repeated(success, times.drop_last()).observed(success, times.last())
        }
    }
}

impl HealthState {
    /// A target that was not observed yet: healthy.
    pub fn new(managed: bool, healthy_threshold: u32, unhealthy_threshold: u32) -> (r: Self)
        ensures
            r@ == HealthView::fresh(managed, healthy_threshold, unhealthy_threshold),
    {
        HealthState {
            healthy: true,
            successes: 0,
            failures: 0,
            last_check_ms: 0,
            healthy_threshold: if healthy_threshold == 0 { 1 } else { healthy_threshold },
            unhealthy_threshold: if unhealthy_threshold == 0 { 1 } else { unhealthy_threshold },
            managed,
        }
    }

    pub fn is_healthy(&self) -> (r: bool)
        ensures
            r == self@.healthy,
    {
        self.healthy
    }

    pub fn last_check_ms(&self) -> (r: u64)
        ensures
            r == self@.last_check_ms,
    {
        self.last_check_ms
    }

    /// Record one observation, made at `now_ms`, and apply consecutive-threshold
    /// transitions. No-op when health is unmanaged.
    pub fn observe_at(&mut self, success: bool, now_ms: u64)
        ensures
            final(self)@ == old(self)@.observed(success, now_ms),
    {
        if !self.managed {
            return ;
        }
        self.last_check_ms = now_ms;
        if success {
            self.failures = 0;
            self.successes = if self.successes == u32::MAX { 0 } else { self.successes + 1 };
            if !self.healthy && self.successes >= self.healthy_threshold {
                self.healthy = true;
            }
        } else {
            self.successes = 0;
            self.failures = if self.failures == u32::MAX { 0 } else { self.failures + 1 };
            if self.healthy && self.failures >= self.unhealthy_threshold {
                self.healthy = false;
            }
        }
    }

    /// Record one observation, made now.
    pub fn observe(&mut self, success: bool)
        ensures
            exists|now: u64| final(self)@ == #[trigger] old(self)@.observed(success, now),
    {
        let now = now_ms();
        self.observe_at(success, now);
    }
}

/// A probe passes where the target answers in time with a 2xx status.
pub open spec fn probe_passes(status: Option<u16>) -> bool {
    status matches Some(s) && 200 <= s < 300
}

/// Whether a probe passed. `status` is that of the answer, `None` where the
/// address is bad, the connection failed or the time ran out.
pub fn probe_passed(status: Option<u16>) -> (r: bool)
    ensures
        r == probe_passes(status),
{
    match status {
        Some(s) => 200 <= s && s < 300,
        None => false,
    }
}

/// Unmanaged health never changes, whatever is observed.
pub proof fn unmanaged_health_is_constant(s: HealthView, success: bool, times: Seq<u64>)
    requires
        !s.managed,
    ensures
        s.repeated(success, times) == s,
    decreases times.len(),
{
    if times.len() > 0 {
        unmanaged_health_is_constant(s, success, times.drop_last());
    }
}

/// What consecutive failures do to a healthy state: they are counted up to the
/// threshold, and from there on the state is unhealthy.
proof fn lemma_failures(s: HealthView, times: Seq<u64>)
    requires
        s.managed,
        s.healthy,
        s.failures < s.unhealthy_threshold,
    ensures
        s.repeated(false, times).managed,
        s.repeated(false, times).unhealthy_threshold == s.unhealthy_threshold,
        s.repeated(false, times).healthy == (s.failures + times.len() < s.unhealthy_threshold),
        s.repeated(false, times).healthy ==> s.repeated(false, times).failures == s.failures
            + times.len(),
    decreases times.len(),
{
    if times.len() > 0 {
        lemma_failures(s, times.drop_last());
    }
}

/// The same for consecutive successes and an unhealthy state.
proof fn lemma_successes(s: HealthView, times: Seq<u64>)
    requires
        s.managed,
        !s.healthy,
        s.successes < s.healthy_threshold,
    ensures
        s.repeated(true, times).managed,
        s.repeated(true, times).healthy_threshold == s.healthy_threshold,
        s.repeated(true, times).healthy == (s.successes + times.len() >= s.healthy_threshold),
        !s.repeated(true, times).healthy ==> s.repeated(true, times).successes == s.successes
            + times.len(),
    decreases times.len(),
{
    if times.len() > 0 {
        lemma_successes(s, times.drop_last());
    }
}

/// A healthy target whose last observation was a success, or that was never
/// observed, becomes unhealthy with exactly `unhealthy_threshold` failures in a
/// row, and no sooner.
pub proof fn ejected_at_threshold(s: HealthView, times: Seq<u64>)
    requires
        s.managed,
        s.healthy,
        s.failures == 0,
        s.unhealthy_threshold > 0,
    ensures
        s.repeated(false, times).healthy == (times.len() < s.unhealthy_threshold),
{
    lemma_failures(s, times);
}

/// An unhealthy target becomes healthy with exactly `healthy_threshold` successes
/// in a row, and no sooner.
pub proof fn recovers_at_threshold(s: HealthView, times: Seq<u64>)
    requires
        s.managed,
        !s.healthy,
        s.successes == 0,
        s.healthy_threshold > 0,
    ensures
        s.repeated(true, times).healthy == (times.len() >= s.healthy_threshold),
{
    lemma_successes(s, times);
}

/// A success ends a streak of failures: what came before it does not count toward
/// the next ejection.
pub proof fn success_resets_failures(s: HealthView, at: u64, times: Seq<u64>)
    requires
        s.managed,
        s.healthy,
        s.unhealthy_threshold > 0,
    ensures
        s.observed(true, at).repeated(false, times).healthy == (times.len()
            < s.unhealthy_threshold),
{
    ejected_at_threshold(s.observed(true, at), times);
}

}
