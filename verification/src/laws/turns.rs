//! Which target has its turn.

use vstd::prelude::*;
use crate::laws::balance::lemma_proportion;
use crate::model::UpstreamConfig;
use crate::schedule::{occurrences, schedule_of};
use crate::snapshot::weights_of;
use crate::upstream::UpstreamRuntime;

verus! {

/// The target whose turn it is `k` steps from now: the schedule is walked round and
/// round, and so is the counter.
pub open spec fn at_step(u: UpstreamRuntime, k: int) -> int {
    u.schedule@[((u.next + k) % (usize::MAX + 1)) % (u.schedule@.len() as int)] as int
}

/// Whether the target whose turn it is `k` steps from now may be taken: it is healthy,
/// and not the one to pass over.
pub open spec fn may_take(u: UpstreamRuntime, skip: Option<usize>, k: int) -> bool {
    &&& u.targets@[at_step(u, k)].state@.healthy
    &&& skip matches Some(s) ==> at_step(u, k) != s
}

/// Step `k` is the first within one pass at which a target may be taken.
pub open spec fn first_step(u: UpstreamRuntime, skip: Option<usize>, k: int) -> bool {
    &&& 0 <= k < u.schedule@.len()
    &&& may_take(u, skip, k)
    &&& forall|j: int| 0 <= j < k ==> !#[trigger] may_take(u, skip, j)
}

proof fn lemma_first(u: UpstreamRuntime, skip: Option<usize>, from: nat, k: int)
    requires
        first_step(u, skip, k),
        from <= k,
    ensures
        u.first_besides(skip, from) == Some(k as nat),
        skip is None ==> u.first_healthy(from) == Some(k as nat),
    decreases k - from,
{
    assert(u.turn(from) == at_step(u, from as int));
    if from < k {
        assert(!may_take(u, skip, from as int));
        lemma_first(u, skip, from + 1, k);
    }
}

proof fn lemma_no_first(u: UpstreamRuntime, skip: Option<usize>, from: nat)
    requires
        forall|j: int| 0 <= j < u.schedule@.len() ==> !#[trigger] may_take(u, skip, j),
    ensures
        u.first_besides(skip, from) is None,
        skip is None ==> u.first_healthy(from) is None,
    decreases u.schedule@.len() - from,
{
    if from < u.schedule@.len() {
        assert(u.turn(from) == at_step(u, from as int));
        assert(!may_take(u, skip, from as int));
        lemma_no_first(u, skip, from + 1);
    }
}

/// A pick takes the first healthy target in the order of the schedule, and the next one
/// goes on behind it. Where none is healthy, nothing is picked and a whole pass is over.
/// Nothing but the turn changes.
pub proof fn turns_go_round(upstream: &mut UpstreamRuntime, r: Option<usize>, k: int)
    requires
        old(upstream).wf(),
        call_ensures(UpstreamRuntime::pick_target, (upstream,), r),
    ensures
        first_step(*old(upstream), None, k) ==> (r matches Some(i) && i == at_step(
            *old(upstream),
            k,
        ) && final(upstream).next == (old(upstream).next + k + 1) % (usize::MAX + 1)),
        (forall|j: int|
            0 <= j < old(upstream).schedule@.len() ==> !#[trigger] may_take(
                *old(upstream),
                None,
                j,
            )) ==> r is None && final(upstream).next == (old(upstream).next
            + old(upstream).schedule@.len()) % (usize::MAX + 1),
        final(upstream).targets == old(upstream).targets,
        final(upstream).schedule == old(upstream).schedule,
        final(upstream).health == old(upstream).health,
        final(upstream).retry == old(upstream).retry,
        final(upstream).tls_insecure_skip_verify == old(upstream).tls_insecure_skip_verify,
{
    let u = *old(upstream);
    if first_step(u, None, k) {
        lemma_first(u, None, 0, k);
        assert(u.turn(k as nat) == at_step(u, k));
    }
    if forall|j: int| 0 <= j < u.schedule@.len() ==> !#[trigger] may_take(u, None, j) {
        lemma_no_first(u, None, 0);
    }
}

/// A pick after a failure takes the first healthy target in the order of the schedule
/// other than the one that failed. Where there is no other, it is like any pick.
pub proof fn turns_pass_over_the_failed_target(
    upstream: &mut UpstreamRuntime,
    failed: Option<usize>,
    r: Option<usize>,
    k: int,
)
    requires
        old(upstream).wf(),
        call_ensures(UpstreamRuntime::pick_other_target, (upstream, failed), r),
    ensures
        first_step(*old(upstream), failed, k) ==> (r matches Some(i) && i == at_step(
            *old(upstream),
            k,
        ) && final(upstream).next == (old(upstream).next + k + 1) % (usize::MAX + 1)),
        (forall|j: int|
            0 <= j < old(upstream).schedule@.len() ==> !#[trigger] may_take(
                *old(upstream),
                failed,
                j,
            )) ==> {
            &&& first_step(*old(upstream), None, k) ==> (r matches Some(i) && i == at_step(
                *old(upstream),
                k,
            ) && final(upstream).next == (old(upstream).next + k + 1) % (usize::MAX + 1))
            &&& (forall|j: int|
                0 <= j < old(upstream).schedule@.len() ==> !#[trigger] may_take(
                    *old(upstream),
                    None,
                    j,
                )) ==> r is None
        },
        final(upstream).targets == old(upstream).targets,
        final(upstream).schedule == old(upstream).schedule,
        final(upstream).health == old(upstream).health,
        final(upstream).retry == old(upstream).retry,
        final(upstream).tls_insecure_skip_verify == old(upstream).tls_insecure_skip_verify,
{
    let u = *old(upstream);
    if first_step(u, failed, k) {
        lemma_first(u, failed, 0, k);
        assert(u.turn(k as nat) == at_step(u, k));
    }
    if forall|j: int| 0 <= j < u.schedule@.len() ==> !#[trigger] may_take(u, failed, j) {
        lemma_no_first(u, failed, 0);
        if first_step(u, None, k) {
            lemma_first(u, None, 0, k);
            assert(u.turn(k as nat) == at_step(u, k));
        }
        if forall|j: int| 0 <= j < u.schedule@.len() ==> !#[trigger] may_take(u, None, j) {
            lemma_no_first(u, None, 0);
        }
    }
}

/// The turns of an upstream are in proportion to the weights of its targets, as soon as
/// one of them has a weight.
pub proof fn upstreams_take_turns_by_weight(
    cfg: UpstreamConfig,
    r: UpstreamRuntime,
    x: usize,
    y: usize,
)
    requires
        call_ensures(UpstreamRuntime::from_config, (&cfg,), r),
        x < cfg.targets@.len(),
        y < cfg.targets@.len(),
        cfg.targets@[x as int].weight > 0,
    ensures
        occurrences(r.schedule@, x) > 0,
        occurrences(r.schedule@, x) * cfg.targets@[y as int].weight == occurrences(r.schedule@, y)
            * cfg.targets@[x as int].weight,
{
    let weights = weights_of(cfg.targets@);
    assert(r.targets.len() == weights.len());
    assert(weights[x as int] == cfg.targets@[x as int].weight);
    assert(weights[y as int] == cfg.targets@[y as int].weight);
    lemma_proportion(weights, x, y);
    if schedule_of(weights).len() == 0 {
        assert(occurrences(schedule_of(weights), x) == 0);
    }
}

} // verus!
