//! Weighted round-robin schedule.
//!
//! A schedule lists target indices. Each target stands in it in proportion to
//! its weight, reduced by the greatest common divisor of the weights, and the
//! list goes round by round: round `r` names, in order, every target whose
//! reduced weight exceeds `r`. Equal weights give plain round-robin.

use vstd::prelude::*;

verus! {

/// `d` divides `n`.
pub open spec fn divides(d: nat, n: nat) -> bool {
    exists|k: nat| n == #[trigger] (k * d)
}

/// Euclid's algorithm.
pub open spec fn euclid(a: nat, b: nat) -> nat
    decreases b,
{
    if b == 0 {
        a
    } else {
        euclid(b, a % b)
    }
}

/// The greatest common divisor of a list of weights; 0 where none is positive.
pub open spec fn common(weights: Seq<u32>) -> nat
    decreases weights.len(),
{
    if weights.len() == 0 {
        0
    } else {
        euclid(common(weights.drop_last()), weights.last() as nat)
    }
}

/// What the weights are divided by.
pub open spec fn unit(weights: Seq<u32>) -> nat {
    if common(weights) == 0 {
        1
    } else {
        common(weights)
    }
}

/// The reduced weights.
pub open spec fn shares(weights: Seq<u32>) -> Seq<nat> {
    weights.map_values(|w: u32| w as nat / unit(weights))
}

/// The sum of a list.
pub open spec fn total(s: Seq<nat>) -> nat
    decreases s.len(),
{
    if s.len() == 0 {
        0
    } else {
        total(s.drop_last()) + s.last()
    }
}

/// The largest member of a list, 0 for an empty one.
pub open spec fn largest(s: Seq<nat>) -> nat
    decreases s.len(),
{
    if s.len() == 0 {
        0
    } else if s.last() > largest(s.drop_last()) {
        s.last()
    } else {
        largest(s.drop_last())
    }
}

/// Round `r` over the first `n` targets: those with a share above `r`, in order.
pub open spec fn round(shares: Seq<nat>, r: nat, n: nat) -> Seq<usize>
    decreases n,
{
    if n == 0 {
        Seq::empty()
    } else if shares[n - 1] > r {
        round(shares, r, (n - 1) as nat).push((n - 1) as usize)
    } else {
        round(shares, r, (n - 1) as nat)
    }
}

/// The first `k` rounds, one behind the other.
pub open spec fn rounds(shares: Seq<nat>, k: nat) -> Seq<usize>
    decreases k,
{
    if k == 0 {
        Seq::empty()
    } else {
        rounds(shares, (k - 1) as nat) + round(shares, (k - 1) as nat, shares.len())
    }
}

/// The schedule for a list of weights.
pub open spec fn schedule_of(weights: Seq<u32>) -> Seq<usize> {
    rounds(shares(weights), largest(shares(weights)))
}

/// How often `x` stands in `s`.
pub open spec fn occurrences(s: Seq<usize>, x: usize) -> nat
    decreases s.len(),
{
    if s.len() == 0 {
        0
    } else {
        occurrences(s.drop_last(), x) + if s.last() == x {
            1nat
        } else {
            0
        }
    }
}

proof fn lemma_divides_step(d: nat, a: nat, b: nat)
    requires
        b > 0,
    ensures
        divides(d, a) && divides(d, b) <==> divides(d, b) && divides(d, a % b),
{
    let q = a / b;
    assert(a == q * b + a % b) by {
        vstd::arithmetic::div_mod::lemma_fundamental_div_mod(a as int, b as int);
        assert(b * q == q * b) by (nonlinear_arith);
    }
    if divides(d, a) && divides(d, b) {
        let x = choose|k: nat| a == #[trigger] (k * d);
        let y = choose|k: nat| b == #[trigger] (k * d);
        assert(q * (y * d) == (q * y) * d) by (nonlinear_arith);
        if d == 0 {
            assert(y * d == 0) by (nonlinear_arith)
                requires
                    d == 0,
            ;
            assert(false);
        }
        assert(x * d >= (q * y) * d);
        assert(x >= q * y) by (nonlinear_arith)
            requires
                x * d >= (q * y) * d,
                d > 0,
        ;
        let z = (x - q * y) as nat;
        assert(z * d == x * d - (q * y) * d) by (nonlinear_arith)
            requires
                z == x - q * y,
        ;
        assert(a % b == z * d);
    }
    if divides(d, b) && divides(d, a % b) {
        let y = choose|k: nat| b == #[trigger] (k * d);
        let z = choose|k: nat| a % b == #[trigger] (k * d);
        let x = q * y + z;
        assert(x * d == q * (y * d) + z * d) by (nonlinear_arith)
            requires
                x == q * y + z,
        ;
        assert(a == x * d);
    }
}

/// Euclid's algorithm gives the greatest common divisor: it divides both
/// numbers, and every number that divides both divides it.
pub proof fn gcd_is_greatest(a: nat, b: nat)
    ensures
        divides(euclid(a, b), a),
        divides(euclid(a, b), b),
        forall|d: nat| divides(d, a) && divides(d, b) ==> divides(d, euclid(a, b)),
    decreases b,
{
    if b == 0 {
        assert(a == 1 * a);
        assert(0 == 0 * a);
        assert(divides(a, a));
        assert(divides(a, 0)) by {
            assert(0nat == 0nat * a);
        }
    } else {
        gcd_is_greatest(b, a % b);
        lemma_divides_step(euclid(a, b), a, b);
        assert forall|d: nat| divides(d, a) && divides(d, b) implies divides(
            d,
            euclid(a, b),
        ) by {
            lemma_divides_step(d, a, b);
        }
    }
}

proof fn lemma_divides_trans(a: nat, b: nat, c: nat)
    requires
        divides(a, b),
        divides(b, c),
    ensures
        divides(a, c),
{
    let x = choose|k: nat| b == #[trigger] (k * a);
    let y = choose|k: nat| c == #[trigger] (k * b);
    assert(y * (x * a) == (y * x) * a) by (nonlinear_arith);
    assert(c == (y * x) * a);
}

/// What the weights are reduced by divides every one of them.
pub proof fn unit_divides_weights(weights: Seq<u32>)
    ensures
        forall|i: int| 0 <= i < weights.len() ==> divides(unit(weights), #[trigger] weights[i] as nat),
        forall|i: int| 0 <= i < weights.len() ==> divides(common(weights), #[trigger] weights[i] as nat),
    decreases weights.len(),
{
    if weights.len() > 0 {
        let front = weights.drop_last();
        unit_divides_weights(front);
        gcd_is_greatest(common(front), weights.last() as nat);
        assert forall|i: int| 0 <= i < weights.len() implies divides(
            common(weights),
            #[trigger] weights[i] as nat,
        ) by {
            if i < weights.len() - 1 {
                assert(front[i] == weights[i]);
                lemma_divides_trans(common(weights), common(front), weights[i] as nat);
            }
        }
    }
    assert forall|i: int| 0 <= i < weights.len() implies divides(
        unit(weights),
        #[trigger] weights[i] as nat,
    ) by {
        if common(weights) == 0 {
            assert(weights[i] as nat == (weights[i] as nat) * 1);
        }
    }
}

/// The greatest common divisor of `a` and `b`.
pub fn gcd(a: u32, b: u32) -> (r: u32)
    ensures
        r == euclid(a as nat, b as nat),
    decreases b,
{
    if b == 0 {
        a
    } else {
        gcd(b, a % b)
    }
}

/// What the weights are divided by.
fn divisor_of(weights: &[u32]) -> (r: u32)
    ensures
        r == unit(weights@),
        r > 0,
{
    let mut acc: u32 = 0;
    let mut i: usize = 0;
    while i < weights.len()
        invariant
            i <= weights.len(),
            acc == common(weights@.take(i as int)),
        decreases weights.len() - i,
    {
        assert(weights@.take(i + 1).drop_last() == weights@.take(i as int));
        acc = gcd(acc, weights[i]);
        i += 1;
    }
    assert(weights@.take(weights@.len() as int) == weights@);
    if acc == 0 {
        1
    } else {
        acc
    }
}

/// Build the weighted schedule: each target index repeated `weight / gcd` times,
/// interleaved so picks rotate smoothly rather than bursting on one target.
/// Equal weights yield `[0, 1, .., n-1]` (plain round-robin).
pub fn build_schedule(weights: &[u32]) -> (r: Vec<usize>)
    ensures
        r@ == schedule_of(weights@),
{
    let divisor = divisor_of(weights);
    let ghost s = shares(weights@);
    let mut reduced: Vec<u32> = Vec::new();
    let mut top: u32 = 0;
    let mut i: usize = 0;
    while i < weights.len()
        invariant
            i <= weights.len(),
            divisor == unit(weights@),
            divisor > 0,
            s == shares(weights@),
            reduced.len() == i,
            forall|j: int| 0 <= j < i ==> reduced@[j] == s[j],
            top == largest(s.take(i as int)),
        decreases weights.len() - i,
    {
        let w: u32 = weights[i] / divisor;
        assert(s.take(i + 1).drop_last() == s.take(i as int));
        assert(w == s[i as int]);
        reduced.push(w);
        if w > top {
            top = w;
        }
        i += 1;
    }
    assert(s.take(s.len() as int) == s);
    let mut schedule: Vec<usize> = Vec::new();
    let mut r: u32 = 0;
    while r < top
        invariant
            r <= top,
            s.len() == reduced.len(),
            forall|j: int| 0 <= j < reduced.len() ==> reduced@[j] == s[j],
            schedule@ == rounds(s, r as nat),
        decreases top - r,
    {
        let ghost done = schedule@;
        let mut idx: usize = 0;
        while idx < reduced.len()
            invariant
                idx <= reduced.len(),
                s.len() == reduced.len(),
                forall|j: int| 0 <= j < reduced.len() ==> reduced@[j] == s[j],
                schedule@ == done + round(s, r as nat, idx as nat),
            decreases reduced.len() - idx,
        {
            if reduced[idx] > r {
                schedule.push(idx);
            }
            idx += 1;
        }
        r += 1;
    }
    schedule
}

pub proof fn lemma_occurrences_add(a: Seq<usize>, b: Seq<usize>, x: usize)
    ensures
        occurrences(a + b, x) == occurrences(a, x) + occurrences(b, x),
    decreases b.len(),
{
    if b.len() == 0 {
        assert(a + b == a);
    } else {
        assert((a + b).drop_last() == a + b.drop_last());
        lemma_occurrences_add(a, b.drop_last(), x);
    }
}

proof fn lemma_round_occurrences(s: Seq<nat>, r: nat, n: nat, x: usize)
    requires
        n <= s.len() <= usize::MAX,
    ensures
        occurrences(round(s, r, n), x) == if x < n && s[x as int] > r {
            1nat
        } else {
            0
        },
    decreases n,
{
    if n > 0 {
        lemma_round_occurrences(s, r, (n - 1) as nat, x);
        if s[n - 1] > r {
            let front = round(s, r, (n - 1) as nat);
            assert(front.push((n - 1) as usize).drop_last() == front);
        }
    }
}

proof fn lemma_rounds_occurrences(s: Seq<nat>, k: nat, x: usize)
    requires
        x < s.len() <= usize::MAX,
    ensures
        occurrences(rounds(s, k), x) == if s[x as int] < k {
            s[x as int]
        } else {
            k
        },
    decreases k,
{
    if k > 0 {
        lemma_rounds_occurrences(s, (k - 1) as nat, x);
        lemma_round_occurrences(s, (k - 1) as nat, s.len(), x);
        lemma_occurrences_add(
            rounds(s, (k - 1) as nat),
            round(s, (k - 1) as nat, s.len()),
            x,
        );
    }
}

proof fn lemma_largest(s: Seq<nat>)
    ensures
        forall|i: int| 0 <= i < s.len() ==> #[trigger] s[i] <= largest(s),
    decreases s.len(),
{
    if s.len() > 0 {
        lemma_largest(s.drop_last());
        assert forall|i: int| 0 <= i < s.len() implies #[trigger] s[i] <= largest(s) by {
            if i < s.len() - 1 {
                assert(s.drop_last()[i] == s[i]);
            }
        }
    }
}

/// Each target stands in the schedule as often as its reduced weight says.
pub proof fn schedule_honors_weights(weights: Seq<u32>, target: usize)
    requires
        target < weights.len() <= usize::MAX,
    ensures
        occurrences(schedule_of(weights), target) == weights[target as int] as nat / unit(weights),
{
    let s = shares(weights);
    lemma_largest(s);
    lemma_rounds_occurrences(s, largest(s), target);
    assert(s[target as int] <= largest(s));
}

proof fn lemma_round_members(s: Seq<nat>, r: nat, n: nat)
    requires
        n <= s.len() <= usize::MAX,
    ensures
        forall|i: int|
            0 <= i < round(s, r, n).len() ==> (#[trigger] round(s, r, n)[i]) < n
                && s[round(s, r, n)[i] as int] > r,
    decreases n,
{
    if n > 0 {
        lemma_round_members(s, r, (n - 1) as nat);
        let front = round(s, r, (n - 1) as nat);
        assert forall|i: int| 0 <= i < round(s, r, n).len() implies (#[trigger] round(s, r, n)[i])
            < n && s[round(s, r, n)[i] as int] > r by {
            if i < front.len() {
                assert(round(s, r, n)[i] == front[i]);
            }
        }
    }
}

proof fn lemma_rounds_members(s: Seq<nat>, k: nat)
    requires
        s.len() <= usize::MAX,
    ensures
        forall|i: int|
            0 <= i < rounds(s, k).len() ==> (#[trigger] rounds(s, k)[i]) < s.len()
                && s[rounds(s, k)[i] as int] > 0,
    decreases k,
{
    if k > 0 {
        lemma_rounds_members(s, (k - 1) as nat);
        lemma_round_members(s, (k - 1) as nat, s.len());
        let front = rounds(s, (k - 1) as nat);
        let back = round(s, (k - 1) as nat, s.len());
        assert forall|i: int| 0 <= i < rounds(s, k).len() implies (#[trigger] rounds(s, k)[i])
            < s.len() && s[rounds(s, k)[i] as int] > 0 by {
            if i < front.len() {
                assert(rounds(s, k)[i] == front[i]);
            } else {
                assert(rounds(s, k)[i] == back[i - front.len()]);
            }
        }
    }
}

/// A schedule names targets that exist, and none of weight 0.
pub proof fn schedule_names_weighted_targets(weights: Seq<u32>)
    requires
        weights.len() <= usize::MAX,
    ensures
        forall|i: int|
            0 <= i < schedule_of(weights).len() ==> (#[trigger] schedule_of(weights)[i])
                < weights.len() && weights[schedule_of(weights)[i] as int] > 0,
{
    let s = shares(weights);
    lemma_rounds_members(s, largest(s));
    assert forall|i: int| 0 <= i < schedule_of(weights).len() implies (
    #[trigger] schedule_of(weights)[i]) < weights.len() && weights[schedule_of(
        weights,
    )[i] as int] > 0 by {
        let t = rounds(s, largest(s))[i];
        assert(s[t as int] == weights[t as int] as nat / unit(weights));
        if weights[t as int] == 0 {
            assert(0nat / unit(weights) == 0) by (nonlinear_arith)
                requires
                    unit(weights) > 0,
            ;
        }
    }
}

/// The schedule is as long as the reduced weights add up to.
pub proof fn schedule_length(weights: Seq<u32>)
    ensures
        schedule_of(weights).len() == total(shares(weights)),
{
    let s = shares(weights);
    lemma_largest(s);
    lemma_rounds_len(s, largest(s));
    let capped = capped(s, largest(s));
    assert(capped =~= s);
}

/// A list with every member cut down to at most `k`.
spec fn capped(s: Seq<nat>, k: nat) -> Seq<nat> {
    s.map_values(|x: nat| if x < k { x } else { k })
}

proof fn lemma_rounds_len(s: Seq<nat>, k: nat)
    ensures
        rounds(s, k).len() == total(capped(s, k)),
    decreases k,
{
    if k == 0 {
        lemma_total_zero(capped(s, 0));
    } else {
        lemma_rounds_len(s, (k - 1) as nat);
        lemma_round_len(s, (k - 1) as nat, s.len());
        assert(s.take(s.len() as int) == s);
    }
}

proof fn lemma_total_zero(s: Seq<nat>)
    requires
        forall|i: int| 0 <= i < s.len() ==> #[trigger] s[i] == 0,
    ensures
        total(s) == 0,
    decreases s.len(),
{
    if s.len() > 0 {
        lemma_total_zero(s.drop_last());
    }
}

proof fn lemma_round_len(s: Seq<nat>, r: nat, n: nat)
    requires
        n <= s.len(),
    ensures
        round(s, r, n).len() + total(capped(s.take(n as int), r)) == total(
            capped(s.take(n as int), r + 1),
        ),
    decreases n,
{
    if n > 0 {
        lemma_round_len(s, r, (n - 1) as nat);
        let t = s.take(n as int);
        assert(capped(t, r).drop_last() =~= capped(s.take(n - 1), r));
        assert(capped(t, r + 1).drop_last() =~= capped(s.take(n - 1), r + 1));
    } else {
        assert(s.take(0) == Seq::<nat>::empty());
    }
}

proof fn lemma_equal_common(n: nat, w: u32)
    requires
        w > 0,
        n > 0,
    ensures
        common(Seq::new(n, |i: int| w)) == w,
    decreases n,
{
    let ws = Seq::new(n, |i: int| w);
    assert(ws.drop_last() == Seq::new((n - 1) as nat, |i: int| w));
    assert(ws.last() == w);
    assert(common(ws) == euclid(common(ws.drop_last()), w as nat));
    reveal_with_fuel(euclid, 3);
    if n == 1 {
        assert(common(ws.drop_last()) == 0);
        assert(euclid(0, w as nat) == euclid(w as nat, 0nat % (w as nat)));
        assert(0nat % (w as nat) == 0) by (nonlinear_arith)
            requires
                w > 0,
        ;
    } else {
        lemma_equal_common((n - 1) as nat, w);
        assert((w as nat) % (w as nat) == 0) by (nonlinear_arith)
            requires
                w > 0,
        ;
        assert(euclid(w as nat, w as nat) == euclid(w as nat, 0));
    }
}

proof fn lemma_full_round(s: Seq<nat>, n: nat)
    requires
        n <= s.len() <= usize::MAX,
        forall|i: int| 0 <= i < s.len() ==> #[trigger] s[i] > 0,
    ensures
        round(s, 0, n) == Seq::new(n, |i: int| i as usize),
    decreases n,
{
    if n > 0 {
        lemma_full_round(s, (n - 1) as nat);
        assert(s[n - 1] > 0);
        assert(Seq::new(n, |i: int| i as usize) == Seq::new(
            (n - 1) as nat,
            |i: int| i as usize,
        ).push((n - 1) as usize));
    }
}

/// Equal weights give plain round-robin: every target once, in order.
pub proof fn equal_weights_are_round_robin(n: nat, w: u32)
    requires
        w > 0,
        n <= usize::MAX,
    ensures
        schedule_of(Seq::new(n, |i: int| w)) == Seq::new(n, |i: int| i as usize),
{
    let ws = Seq::new(n, |i: int| w);
    let s = shares(ws);
    if n == 0 {
        assert(s == Seq::<nat>::empty());
        assert(rounds(s, 0) == Seq::<usize>::empty());
    } else {
        lemma_equal_common(n, w);
        assert forall|i: int| 0 <= i < s.len() implies #[trigger] s[i] == 1 by {
            assert((w as nat) / (w as nat) == 1) by (nonlinear_arith)
                requires
                    w > 0,
            ;
        }
        lemma_ones_largest(s);
        lemma_full_round(s, n);
        assert(rounds(s, 0) == Seq::<usize>::empty());
        assert(rounds(s, 1) == rounds(s, 0) + round(s, 0, n));
    }
}

proof fn lemma_ones_largest(s: Seq<nat>)
    requires
        s.len() > 0,
        forall|i: int| 0 <= i < s.len() ==> #[trigger] s[i] == 1,
    ensures
        largest(s) == 1,
    decreases s.len(),
{
    assert(s.last() == 1);
    let front = s.drop_last();
    if s.len() > 1 {
        assert forall|i: int| 0 <= i < front.len() implies #[trigger] front[i] == 1 by {
            assert(s[i] == 1);
        }
        lemma_ones_largest(front);
    } else {
        assert(largest(front) == 0);
    }
}

/// Where some weight is positive, the schedule is not empty.
pub proof fn schedule_is_empty_without_weight(weights: Seq<u32>)
    requires
        weights.len() <= usize::MAX,
    ensures
        (schedule_of(weights).len() == 0) == (forall|i: int|
            0 <= i < weights.len() ==> #[trigger] weights[i] == 0),
{
    if forall|i: int| 0 <= i < weights.len() ==> #[trigger] weights[i] == 0 {
        schedule_names_weighted_targets(weights);
        if schedule_of(weights).len() > 0 {
            let t = schedule_of(weights)[0];
            assert(weights[t as int] == 0);
        }
    } else {
        let i = choose|i: int| 0 <= i < weights.len() && #[trigger] weights[i] != 0;
        schedule_honors_weights(weights, i as usize);
        unit_divides_weights(weights);
        let w = weights[i] as nat;
        let u = unit(weights);
        let k = choose|k: nat| w == #[trigger] (k * u);
        assert(w / u >= 1) by (nonlinear_arith)
            requires
                w == k * u,
                u > 0,
                w > 0,
        ;
        if schedule_of(weights).len() == 0 {
            assert(occurrences(schedule_of(weights), i as usize) == 0);
        }
    }
}

}
