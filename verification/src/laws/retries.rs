//! When a request is tried again, and where it goes then.

use vstd::prelude::*;
use crate::gateway::GatewayError;
use crate::health::HealthState;
use crate::proxy::{BodyKind, Forwarding, Outcome, Step, Verdict};
use crate::upstream::{
    another_target_is_picked, none_only_when_all_unhealthy, other_turns_are_kept, RetryPolicy,
    UpstreamRuntime,
};
use crate::uri::{build_upstream_uri, TargetUri};

verus! {

/// A retry that the policy grants is made, and no other: a 5xx answer, from 500 on, is
/// tried again where the policy lists it and an attempt is left, and so is a connection
/// that failed. Any other answer goes to the client; any other failure is final.
pub proof fn granted_retries_are_made(
    f: &mut Forwarding,
    state: &mut HealthState,
    outcome: Outcome,
    now_ms: u64,
    verdict: Verdict,
)
    requires
        call_ensures(Forwarding::settle, (f, state, outcome, now_ms), verdict),
    ensures
        outcome matches Outcome::Answered(status) ==> (500 <= status && old(f).on_5xx
            && old(f).attempt < old(f).max_attempts ==> verdict == Verdict::Retry),
        outcome matches Outcome::Answered(status) ==> (status < 500 || !old(f).on_5xx
            || old(f).attempt >= old(f).max_attempts ==> verdict == Verdict::Respond),
        outcome == Outcome::Failed && old(f).on_connect_failure && old(f).attempt
            < old(f).max_attempts ==> verdict == Verdict::Retry,
        outcome == Outcome::Failed && (!old(f).on_connect_failure || old(f).attempt
            >= old(f).max_attempts) ==> verdict == Verdict::Fail(GatewayError::UpstreamConnect),
        outcome == Outcome::TimedOut ==> verdict == Verdict::Fail(GatewayError::UpstreamTimeout),
        outcome == Outcome::BodyTooLarge ==> verdict == Verdict::Fail(
            GatewayError::PayloadTooLarge,
        ),
{
}

/// Taking in how an attempt went uses up no attempt and keeps the policy; what is
/// reported if no attempt is left changes only where the connection failed.
pub proof fn settling_keeps_the_policy(
    f: &mut Forwarding,
    state: &mut HealthState,
    outcome: Outcome,
    now_ms: u64,
    verdict: Verdict,
)
    requires
        call_ensures(Forwarding::settle, (f, state, outcome, now_ms), verdict),
    ensures
        final(f).attempt == old(f).attempt,
        final(f).max_attempts == old(f).max_attempts,
        final(f).body == old(f).body,
        final(f).last_target == old(f).last_target,
        final(f).on_connect_failure == old(f).on_connect_failure,
        final(f).on_5xx == old(f).on_5xx,
        outcome == Outcome::Failed ==> final(f).last == GatewayError::UpstreamConnect,
        outcome != Outcome::Failed ==> final(f).last == old(f).last,
{
}

/// An answer below 500 counts for the target, a 5xx answer, a failed connection and a
/// timeout count against it, and a body that is too large says nothing of it.
pub proof fn outcomes_count_for_health(
    f: &mut Forwarding,
    state: &mut HealthState,
    outcome: Outcome,
    now_ms: u64,
    verdict: Verdict,
)
    requires
        call_ensures(Forwarding::settle, (f, state, outcome, now_ms), verdict),
        old(state)@.managed,
    ensures
        outcome == Outcome::BodyTooLarge ==> final(state)@ == old(state)@,
        outcome matches Outcome::Answered(status) ==> (status < 500 ==> final(state)@.failures
            == 0 && (old(state)@.healthy ==> final(state)@.healthy)),
        outcome matches Outcome::Answered(status) ==> (500 <= status ==> final(state)@.successes
            == 0 && (!old(state)@.healthy ==> !final(state)@.healthy)),
        outcome == Outcome::Failed || outcome == Outcome::TimedOut ==> final(state)@.successes == 0
            && (!old(state)@.healthy ==> !final(state)@.healthy),
        outcome != Outcome::BodyTooLarge ==> final(state)@.last_check_ms == now_ms,
{
}

/// The attempts of a request start at none. Only a body that was buffered whole, of a
/// request that may be sent again, has as many as its policy says; all others have one.
pub proof fn attempts_start_by_the_policy(
    retry: Option<RetryPolicy>,
    replayable: bool,
    body: BodyKind,
    f: Forwarding,
)
    requires
        call_ensures(Forwarding::start, (&retry, replayable, body), f),
    ensures
        f.attempt == 0,
        f.body == body,
        f.last_target is None,
        f.last == GatewayError::NoHealthyUpstream,
        retry matches Some(policy) ==> (replayable && body == BodyKind::Buffered
            ==> f.max_attempts == policy.max_attempts),
        retry is None || !replayable || body != BodyKind::Buffered ==> f.max_attempts == 1,
        retry matches Some(policy) ==> f.on_5xx == policy.on_5xx && f.on_connect_failure
            == policy.on_connect_failure,
        retry is None ==> !f.on_5xx && !f.on_connect_failure,
{
}

/// A request is sent to a target that is healthy, while an attempt is left and its body
/// can be sent; the attempt is counted and its target remembered.
pub proof fn sends_go_to_healthy_targets(
    f: &mut Forwarding,
    upstream: &mut UpstreamRuntime,
    path_and_query: &str,
    step: Step,
)
    requires
        call_ensures(Forwarding::next_step, (f, upstream, path_and_query), step),
        old(upstream).wf(),
        old(f).wf(),
    ensures
        step matches Step::Send(target, _) ==> {
            &&& old(f).attempt < old(f).max_attempts
            &&& old(f).body == BodyKind::Buffered || old(f).body == BodyKind::Streamed
            &&& old(upstream).pick_other(old(f).last_target) == Some(target as int)
            &&& final(f).attempt == old(f).attempt + 1
            &&& final(f).last_target == Some(target)
        },
        step is Fail ==> *final(f) == *old(f),
        old(f).body == BodyKind::TooLarge ==> step == Step::Fail(GatewayError::PayloadTooLarge),
        old(f).body != BodyKind::TooLarge && old(f).attempt >= old(f).max_attempts ==> step
            == Step::Fail(old(f).last),
        final(upstream).targets == old(upstream).targets,
        final(upstream).schedule == old(upstream).schedule,
{
}

proof fn lemma_besides_is_healthy(u: UpstreamRuntime, failed: Option<usize>, from: nat)
    ensures
        u.first_besides(failed, from) matches Some(k) ==> k < u.schedule@.len() && u.turn_healthy(
            k,
        ),
        u.first_healthy(from) matches Some(k) ==> k < u.schedule@.len() && u.turn_healthy(k),
    decreases u.schedule@.len() - from,
{
    if from < u.schedule@.len() {
        lemma_besides_is_healthy(u, failed, from + 1);
    }
}

/// The target of an attempt is healthy at the time, and not that of the attempt before
/// it where the schedule names another one that is healthy, as long as the counter does
/// not go round within the pass. Where the schedule names a healthy target at all, the
/// attempt is not refused for want of one.
pub proof fn attempts_find_healthy_targets(
    f: &mut Forwarding,
    upstream: &mut UpstreamRuntime,
    path_and_query: &str,
    step: Step,
    other: int,
)
    requires
        call_ensures(Forwarding::next_step, (f, upstream, path_and_query), step),
        old(upstream).wf(),
        old(f).wf(),
        old(f).attempt < old(f).max_attempts,
        old(f).body == BodyKind::Buffered || old(f).body == BodyKind::Streamed,
        old(upstream).next + old(upstream).schedule@.len() <= usize::MAX,
        0 <= other < old(upstream).schedule@.len(),
        old(upstream).targets@[old(upstream).schedule@[other] as int].state@.healthy,
    ensures
        step != Step::Fail(GatewayError::NoHealthyUpstream),
        step matches Step::Send(target, _) ==> {
            &&& target < old(upstream).targets@.len()
            &&& old(upstream).targets@[target as int].state@.healthy
            &&& old(f).last_target != Some(old(upstream).schedule@[other]) ==> old(f).last_target
                != Some(target)
        },
{
    let u = *old(upstream);
    let failed = old(f).last_target;
    lemma_besides_is_healthy(u, failed, 0);
    if failed != Some(u.schedule@[other]) {
        if let Some(x) = failed {
            another_target_is_picked(u, x, other);
        } else {
            other_turns_are_kept(u, None);
            none_only_when_all_unhealthy(u);
        }
    } else {
        none_only_when_all_unhealthy(u);
    }
    assert(u.pick() is Some) by {
        none_only_when_all_unhealthy(u);
    }
}

/// What an attempt says of its target is one observation: a success for an answer below
/// 500, a failure for any other answer, a failed connection and a timeout.
pub proof fn outcomes_are_observed(
    f: &mut Forwarding,
    state: &mut HealthState,
    outcome: Outcome,
    now_ms: u64,
    verdict: Verdict,
    watched: &mut HealthState,
    success: bool,
)
    requires
        call_ensures(Forwarding::settle, (f, state, outcome, now_ms), verdict),
        old(watched)@ == old(state)@,
        call_ensures(HealthState::observe_at, (watched, success, now_ms), ()),
        outcome != Outcome::BodyTooLarge,
        success == (outcome matches Outcome::Answered(status) && status < 500),
    ensures
        final(state)@ == final(watched)@,
{
}

/// An attempt goes to the target that is picked besides the last one, at the address that
/// the target and the path make; a target without such an address is a bad gateway.
pub proof fn attempts_are_addressed_to_the_picked_target(
    f: &mut Forwarding,
    upstream: &mut UpstreamRuntime,
    path_and_query: &str,
    step: Step,
    picking: &mut UpstreamRuntime,
    picked: Option<usize>,
    url: &str,
    made: Result<TargetUri, ()>,
)
    requires
        call_ensures(Forwarding::next_step, (f, upstream, path_and_query), step),
        old(upstream).wf(),
        old(f).wf(),
        old(f).body == BodyKind::Buffered || old(f).body == BodyKind::Streamed,
        old(f).attempt < old(f).max_attempts,
        *old(picking) == *old(upstream),
        call_ensures(
            UpstreamRuntime::pick_other_target,
            (picking, old(f).last_target),
            picked,
        ),
        picked matches Some(i) ==> url@ == old(upstream).targets@[i as int].url@,
        call_ensures(build_upstream_uri, (url, path_and_query), made),
    ensures
        *final(upstream) == *final(picking),
        picked is None ==> step == Step::Fail(GatewayError::NoHealthyUpstream),
        picked is Some && made is Err ==> step == Step::Fail(GatewayError::BadGateway)
            && *final(f) == *old(f),
        picked is Some && made is Ok ==> (step matches Step::Send(target, uri) && Some(target)
            == picked && uri.written() == made->Ok_0.written()),
        step matches Step::Send(target, _) ==> {
            &&& final(f).attempt == old(f).attempt + 1
            &&& final(f).last_target == Some(target)
            &&& final(f).max_attempts == old(f).max_attempts
            &&& final(f).body == old(f).body
            &&& final(f).last == old(f).last
            &&& final(f).on_5xx == old(f).on_5xx
            &&& final(f).on_connect_failure == old(f).on_connect_failure
        },
{
}

/// A body that was lost is not sent, and what has failed so far is told.
pub proof fn lost_bodies_are_not_sent(
    f: &mut Forwarding,
    upstream: &mut UpstreamRuntime,
    path_and_query: &str,
    step: Step,
)
    requires
        call_ensures(Forwarding::next_step, (f, upstream, path_and_query), step),
        old(upstream).wf(),
        old(f).wf(),
        old(f).body == BodyKind::Lost,
    ensures
        step == Step::Fail(old(f).last) || step == Step::Fail(GatewayError::NoHealthyUpstream),
        *final(f) == *old(f),
{
}

} // verus!
