//! When a target counts as healthy.

use vstd::prelude::*;
use crate::gateway::GatewayError;
use crate::health::{probe_passed, HealthState, HealthView};
use crate::proxy::{settle_upgrade, UpgradeOutcome, UpgradeVerdict};

verus! {

/// A target starts healthy, with no streak; a threshold of 0 counts as 1.
pub proof fn targets_start_healthy(
    managed: bool,
    healthy_threshold: u32,
    unhealthy_threshold: u32,
    state: HealthState,
)
    requires
        call_ensures(HealthState::new, (managed, healthy_threshold, unhealthy_threshold), state),
    ensures
        state@.healthy,
        state@.managed == managed,
        state@.successes == 0,
        state@.failures == 0,
        state@.last_check_ms == 0,
        healthy_threshold > 0 ==> state@.healthy_threshold == healthy_threshold,
        healthy_threshold == 0 ==> state@.healthy_threshold == 1,
        unhealthy_threshold > 0 ==> state@.unhealthy_threshold == unhealthy_threshold,
        unhealthy_threshold == 0 ==> state@.unhealthy_threshold == 1,
{
}

/// One observation of a managed target: it lengthens the streak that it belongs to and
/// ends the other; a healthy target is ejected exactly when the streak of failures
/// reaches its threshold, and an unhealthy one is back exactly when that of successes
/// does.
pub proof fn streaks_decide(state: &mut HealthState, success: bool, now_ms: u64)
    requires
        call_ensures(HealthState::observe_at, (state, success, now_ms), ()),
        old(state)@.managed,
    ensures
        final(state)@.managed,
        final(state)@.healthy_threshold == old(state)@.healthy_threshold,
        final(state)@.unhealthy_threshold == old(state)@.unhealthy_threshold,
        final(state)@.last_check_ms == now_ms,
        success ==> final(state)@.failures == 0,
        success && old(state)@.successes < u32::MAX ==> final(state)@.successes
            == old(state)@.successes + 1,
        !success ==> final(state)@.successes == 0,
        !success && old(state)@.failures < u32::MAX ==> final(state)@.failures
            == old(state)@.failures + 1,
        success && old(state)@.healthy ==> final(state)@.healthy,
        !success && !old(state)@.healthy ==> !final(state)@.healthy,
        success && !old(state)@.healthy && old(state)@.successes < u32::MAX ==> final(state)@.healthy
            == (old(state)@.successes + 1 >= old(state)@.healthy_threshold),
        !success && old(state)@.healthy && old(state)@.failures < u32::MAX ==> final(state)@.healthy
            == (old(state)@.failures + 1 < old(state)@.unhealthy_threshold),
{
}

/// A target whose health is not managed stays as it is.
pub proof fn unmanaged_targets_stay(state: &mut HealthState, success: bool, now_ms: u64)
    requires
        call_ensures(HealthState::observe_at, (state, success, now_ms), ()),
        !old(state)@.managed,
    ensures
        final(state)@ == old(state)@,
{
}

/// A failure ends a streak of successes: what came before it does not count toward
/// recovery.
pub proof fn failure_resets_successes(s: HealthView, at: u64, times: Seq<u64>)
    requires
        s.managed,
        !s.healthy,
        s.healthy_threshold > 0,
    ensures
        s.observed(false, at).repeated(true, times).healthy == (times.len()
            >= s.healthy_threshold),
{
    crate::health::recovers_at_threshold(s.observed(false, at), times);
}

/// A probe passes exactly on an answer from 200 to 299.
pub proof fn probes_pass_on_success(status: Option<u16>, passed: bool)
    requires
        call_ensures(probe_passed, (status,), passed),
    ensures
        passed <==> status is Some && status->0 >= 200 && status->0 <= 299,
{
}

/// An upgrade becomes a tunnel exactly where the target switches protocols; any other
/// answer goes to the client. An answer below 500 counts for the target, one from 500 on
/// and a failed connection count against it.
pub proof fn upgrades_become_tunnels(
    state: &mut HealthState,
    outcome: UpgradeOutcome,
    now_ms: u64,
    verdict: UpgradeVerdict,
)
    requires
        call_ensures(settle_upgrade, (state, outcome, now_ms), verdict),
    ensures
        outcome == UpgradeOutcome::Answered(101) <==> verdict == UpgradeVerdict::Tunnel,
        outcome is Answered && outcome != UpgradeOutcome::Answered(101) <==> verdict
            == UpgradeVerdict::Respond,
        outcome == UpgradeOutcome::Failed <==> verdict == UpgradeVerdict::Fail(
            GatewayError::UpstreamConnect,
        ),
        old(state)@.managed && (outcome matches UpgradeOutcome::Answered(s) && s < 500)
            ==> final(state)@.failures == 0,
        old(state)@.managed && (outcome == UpgradeOutcome::Failed || (outcome matches
            UpgradeOutcome::Answered(s) && s >= 500)) ==> final(state)@.successes == 0,
        old(state)@.managed ==> final(state)@.last_check_ms == now_ms,
{
}

/// An observation now is one at some time, and health is told as it is.
pub proof fn observations_are_made_now(
    state: &mut HealthState,
    success: bool,
    before: bool,
    since: u64,
)
    requires
        call_ensures(HealthState::observe, (state, success), ()),
        call_ensures(HealthState::is_healthy, (old(state),), before),
        call_ensures(HealthState::last_check_ms, (old(state),), since),
    ensures
        before == old(state)@.healthy,
        since == old(state)@.last_check_ms,
        !old(state)@.managed ==> final(state)@ == old(state)@,
        old(state)@.managed && success ==> final(state)@.failures == 0 && (old(state)@.healthy
            ==> final(state)@.healthy),
        old(state)@.managed && !success ==> final(state)@.successes == 0 && (!old(state)@.healthy
            ==> !final(state)@.healthy),
        old(state)@.managed && success && !old(state)@.healthy && old(state)@.successes < u32::MAX
            ==> final(state)@.healthy == (old(state)@.successes + 1
            >= old(state)@.healthy_threshold),
        old(state)@.managed && !success && old(state)@.healthy && old(state)@.failures < u32::MAX
            ==> final(state)@.healthy == (old(state)@.failures + 1
            < old(state)@.unhealthy_threshold),
{
}

/// An upgrade says of its target what any answer does: a success below 500, a failure
/// else and where the target could not be reached.
pub proof fn upgrades_are_observed(
    state: &mut HealthState,
    outcome: UpgradeOutcome,
    now_ms: u64,
    verdict: UpgradeVerdict,
    watched: &mut HealthState,
    success: bool,
)
    requires
        call_ensures(settle_upgrade, (state, outcome, now_ms), verdict),
        old(watched)@ == old(state)@,
        call_ensures(HealthState::observe_at, (watched, success, now_ms), ()),
        success == (outcome matches UpgradeOutcome::Answered(status) && status < 500),
    ensures
        final(state)@ == final(watched)@,
{
}

} // verus!
