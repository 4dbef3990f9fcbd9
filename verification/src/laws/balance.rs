//! How the weights of targets become turns.

use vstd::prelude::*;
use crate::model::RetryConfig;
use crate::schedule::{
    build_schedule, common, divides, gcd, gcd_is_greatest, largest, lemma_occurrences_add,
    occurrences, round, rounds, schedule_honors_weights, schedule_of, shares, unit,
    unit_divides_weights,
};
use crate::upstream::RetryPolicy;

verus! {

/// A target stands in the schedule as often as its weight says, in units of one size.
proof fn lemma_turns(weights: Seq<u32>, x: usize)
    requires
        x < weights.len() <= usize::MAX,
    ensures
        occurrences(schedule_of(weights), x) * unit(weights)
            == weights[x as int] as nat,
        unit(weights) > 0,
{
    schedule_honors_weights(weights, x);
    unit_divides_weights(weights);
    let u = unit(weights);
    let w = weights[x as int] as nat;
    let k = choose|k: nat| w == #[trigger] (k * u);
    assert(w / u == k) by (nonlinear_arith)
        requires
            w == k * u,
            u > 0,
    ;
}

/// Of any two targets each stands in the schedule as often per unit of weight as the
/// other.
pub proof fn lemma_proportion(weights: Seq<u32>, x: usize, y: usize)
    requires
        x < weights.len() <= usize::MAX,
        y < weights.len(),
    ensures
        occurrences(schedule_of(weights), x) * weights[y as int] == occurrences(
            schedule_of(weights),
            y,
        ) * weights[x as int],
        occurrences(schedule_of(weights), x) > 0 <==> weights[x as int] > 0,
{
    lemma_turns(weights, x);
    lemma_turns(weights, y);
    let u = unit(weights);
    let a = occurrences(schedule_of(weights), x);
    let b = occurrences(schedule_of(weights), y);
    assert(a * (b * u) == b * (a * u)) by (nonlinear_arith);
    assert(a > 0 <==> a * u > 0) by (nonlinear_arith)
        requires
            u > 0,
    ;
}

/// Turns are in proportion to weights: of any two targets each has as many turns per
/// unit of weight as the other.
pub proof fn turns_are_in_proportion(weights: &[u32], schedule: Vec<usize>, x: usize, y: usize)
    requires
        call_ensures(build_schedule, (weights,), schedule),
        x < weights@.len() <= usize::MAX,
        y < weights@.len(),
    ensures
        occurrences(schedule@, x) * weights@[y as int] == occurrences(schedule@, y)
            * weights@[x as int],
        occurrences(schedule@, x) > 0 <==> weights@[x as int] > 0,
{
    lemma_proportion(weights@, x, y);
}

proof fn lemma_common_is_greatest(weights: Seq<u32>, d: nat)
    requires
        forall|i: int| 0 <= i < weights.len() ==> divides(d, #[trigger] weights[i] as nat),
    ensures
        divides(d, common(weights)),
    decreases weights.len(),
{
    if weights.len() == 0 {
        assert(0nat == 0nat * d);
    } else {
        let front = weights.drop_last();
        assert forall|i: int| 0 <= i < front.len() implies divides(
            d,
            #[trigger] front[i] as nat,
        ) by {
            assert(front[i] == weights[i]);
        }
        lemma_common_is_greatest(front, d);
        gcd_is_greatest(common(front), weights.last() as nat);
        assert(divides(d, weights[weights.len() - 1] as nat));
    }
}

proof fn lemma_common_positive(weights: Seq<u32>, x: int)
    requires
        0 <= x < weights.len(),
        weights[x] > 0,
    ensures
        common(weights) > 0,
{
    unit_divides_weights(weights);
    let k = choose|k: nat| weights[x] as nat == #[trigger] (k * common(weights));
    if common(weights) == 0 {
        assert(k * 0 == 0) by (nonlinear_arith);
    }
}

/// The schedule is as short as the proportions allow: no number but 1 divides the turns
/// of every target.
pub proof fn schedules_are_reduced(weights: &[u32], schedule: Vec<usize>, d: nat, x: usize)
    requires
        call_ensures(build_schedule, (weights,), schedule),
        x < weights@.len() <= usize::MAX,
        weights@[x as int] > 0,
        forall|y: usize|
            y < weights@.len() ==> exists|k: nat| #[trigger] occurrences(schedule@, y)
                == #[trigger] (k * d),
    ensures
        d == 1,
{
    let u = unit(weights@);
    lemma_common_positive(weights@, x as int);
    lemma_turns(weights@, x);
    assert forall|i: int| 0 <= i < weights@.len() implies divides(
        d * u,
        #[trigger] weights@[i] as nat,
    ) by {
        let y = i as usize;
        lemma_turns(weights@, y);
        let k = choose|k: nat| occurrences(schedule@, y) == #[trigger] (k * d);
        assert((k * d) * u == k * (d * u)) by (nonlinear_arith);
        assert(weights@[i] as nat == k * (d * u));
    }
    lemma_common_is_greatest(weights@, d * u);
    let k = choose|k: nat| common(weights@) == #[trigger] (k * (d * u));
    let kx = choose|kx: nat| occurrences(schedule@, x) == #[trigger] (kx * d);
    assert(d == 1) by (nonlinear_arith)
        requires
            u == k * (d * u),
            u > 0,
    ;
}

proof fn lemma_take_occurrences(s: Seq<usize>, n: int, x: usize)
    requires
        0 <= n <= s.len(),
    ensures
        occurrences(s.take(n), x) <= occurrences(s, x),
{
    assert(s.take(n) + s.skip(n) =~= s);
    lemma_occurrences_add(s.take(n), s.skip(n), x);
}

proof fn lemma_full_rounds(s: Seq<nat>, k: nat, x: usize)
    requires
        x < s.len() <= usize::MAX,
    ensures
        occurrences(rounds(s, k), x) == if s[x as int] < k {
            s[x as int]
        } else {
            k
        },
        occurrences(round(s, k, s.len()), x) == if s[x as int] > k {
            1nat
        } else {
            0
        },
    decreases k,
{
    lemma_one_round(s, k, s.len(), x);
    if k > 0 {
        lemma_full_rounds(s, (k - 1) as nat, x);
        lemma_occurrences_add(rounds(s, (k - 1) as nat), round(s, (k - 1) as nat, s.len()), x);
    }
}

proof fn lemma_one_round(s: Seq<nat>, r: nat, n: nat, x: usize)
    requires
        n <= s.len() <= usize::MAX,
    ensures
        occurrences(round(s, r, n), x) == if x < n && s[x as int] > r {
            1nat
        } else {
            0
        },
    decreases n,
{
    if n > 0 {
        lemma_one_round(s, r, (n - 1) as nat, x);
        if s[n - 1] > r {
            let front = round(s, r, (n - 1) as nat);
            assert(front.push((n - 1) as usize).drop_last() == front);
        }
    }
}

/// After `n` turns some number of rounds is complete, and no target is more than one
/// turn past them.
proof fn lemma_rounds_done(s: Seq<nat>, top: nat, n: int, x: usize, y: usize) -> (k: nat)
    requires
        s.len() <= usize::MAX,
        0 <= n <= rounds(s, top).len(),
        x < s.len(),
        y < s.len(),
    ensures
        occurrences(rounds(s, top).take(n), x) >= if s[x as int] < k {
            s[x as int]
        } else {
            k
        },
        occurrences(rounds(s, top).take(n), y) <= k + 1,
    decreases top,
{
    let all = rounds(s, top);
    if top == 0 {
        assert(all.take(n) =~= Seq::<usize>::empty());
        0
    } else {
        let done = rounds(s, (top - 1) as nat);
        let last = round(s, (top - 1) as nat, s.len());
        if n <= done.len() {
            assert(all.take(n) =~= done.take(n));
            lemma_rounds_done(s, (top - 1) as nat, n, x, y)
        } else {
            let part = last.take(n - done.len());
            assert(all.take(n) =~= done + part);
            lemma_occurrences_add(done, part, x);
            lemma_occurrences_add(done, part, y);
            lemma_full_rounds(s, (top - 1) as nat, x);
            lemma_full_rounds(s, (top - 1) as nat, y);
            lemma_take_occurrences(last, n - done.len(), y);
            (top - 1) as nat
        }
    }
}

/// Turns are interleaved rather than in bursts: wherever the schedule is cut, a target
/// is two turns ahead of another only where that other has had all of its turns.
pub proof fn turns_are_interleaved(
    weights: &[u32],
    schedule: Vec<usize>,
    n: int,
    x: usize,
    y: usize,
)
    requires
        call_ensures(build_schedule, (weights,), schedule),
        weights@.len() <= usize::MAX,
        0 <= n <= schedule@.len(),
        x < weights@.len(),
        y < weights@.len(),
        occurrences(schedule@.take(n), y) >= occurrences(schedule@.take(n), x) + 2,
    ensures
        occurrences(schedule@.take(n), x) == occurrences(schedule@, x),
{
    let s = shares(weights@);
    let k = lemma_rounds_done(s, largest(s), n, x, y);
    schedule_honors_weights(weights@, x);
    lemma_take_occurrences(schedule@, n, x);
}

/// Equal weights give every target one turn, in order; without weights there is none.
pub proof fn equal_weights_take_turns_in_order(
    weights: &[u32],
    schedule: Vec<usize>,
    i: int,
)
    requires
        call_ensures(build_schedule, (weights,), schedule),
        weights@.len() <= usize::MAX,
        0 <= i < weights@.len(),
        weights@[0] > 0,
        forall|j: int| 0 <= j < weights@.len() ==> #[trigger] weights@[j] == weights@[0],
    ensures
        schedule@.len() == weights@.len(),
        schedule@[i] == i,
{
    let w = weights@[0];
    let n = weights@.len();
    assert(weights@ =~= Seq::new(n, |j: int| w));
    crate::schedule::equal_weights_are_round_robin(n, w);
}

/// The greatest common divisor divides both numbers, and whatever divides both divides
/// it.
pub proof fn divisors_are_common(a: u32, b: u32, r: u32, d: nat)
    requires
        call_ensures(gcd, (a, b), r),
    ensures
        exists|k: nat| a == #[trigger] (k * r as nat),
        exists|k: nat| b == #[trigger] (k * r as nat),
        (exists|k: nat| a == #[trigger] (k * d)) && (exists|k: nat| b == #[trigger] (k * d))
            ==> exists|k: nat| r == #[trigger] (k * d),
{
    gcd_is_greatest(a as nat, b as nat);
    assert(divides(r as nat, a as nat) && divides(r as nat, b as nat));
    if (exists|k: nat| a == #[trigger] (k * d)) && (exists|k: nat| b == #[trigger] (k * d)) {
        assert(divides(d, a as nat) && divides(d, b as nat));
        assert(divides(d, r as nat));
    }
}

/// Whether a text is one of a list, wherever it stands.
pub open spec fn stands_in(list: Seq<String>, text: Seq<char>) -> bool {
    exists|i: int| 0 <= i < list.len() && #[trigger] list[i]@ == text
}

/// The retry policy is that of the config, where it is enabled: its attempts, at least
/// one, the methods that it lists, and a retry on each condition that it lists. A
/// connect error and a connect timeout are both failures to connect.
pub proof fn the_retry_policy_is_that_of_the_config(
    cfg: RetryConfig,
    policy: Option<RetryPolicy>,
    method: &str,
    allowed: bool,
)
    requires
        call_ensures(RetryPolicy::from_config, (&cfg,), policy),
        policy matches Some(p) ==> call_ensures(RetryPolicy::allows_method, (&p, method), allowed),
    ensures
        policy is Some == cfg.enabled,
        policy matches Some(p) ==> {
            &&& cfg.attempts > 0 ==> p.max_attempts == cfg.attempts
            &&& cfg.attempts == 0 ==> p.max_attempts == 1
            &&& p.on_5xx == stands_in(cfg.retry_on@, "upstream_5xx"@)
            &&& p.on_connect_failure == (stands_in(cfg.retry_on@, "connect_error"@) || stands_in(
                cfg.retry_on@,
                "connect_timeout"@,
            ))
            &&& allowed ==> stands_in(cfg.methods@, method@)
            &&& stands_in(cfg.methods@, method@) && method@.len() > 0 && (forall|i: int|
                0 <= i < method@.len() ==> 'A' <= #[trigger] method@[i] <= 'Z') ==> allowed
        },
{
    if let Some(p) = policy {
        assert(p.allows(method@) == (crate::uri::is_token(method@) && stands_in(
            cfg.methods@,
            method@,
        )));
    }
}

} // verus!
