//! What the metrics count, and how they are shown.

use vstd::prelude::*;
use crate::admin::{metrics_reply, refreshed};
use crate::error::MetricsError;
use crate::gateway::{GatewayError, Reply};
use crate::laws::snapshots::{healthy_ones, lemma_healthy_among};
use crate::metrics::{label_slot, Metrics, MetricsView};
use crate::snapshot::{NamedUpstream, RuntimeConfig};
use crate::text::{decimal_of, occurs};

verus! {

/// Metrics start at zero, with no gauge set and no reload counted.
pub proof fn metrics_start_at_zero(r: Result<Metrics, MetricsError>)
    requires
        call_ensures(Metrics::new, (), r),
    ensures
        r is Ok,
        r matches Ok(m) ==> {
            &&& m.wf()
            &&& m@.requests == 0 && m@.upstream_requests == 0 && m@.upstream_errors == 0
            &&& m@.upstream_retries == 0 && m@.route_not_found == 0 && m@.websockets == 0
            &&& m@.durations.len() == 0
            &&& forall|slot: u64| !#[trigger] m@.healthy.dom().contains(slot)
            &&& forall|slot: u64| !#[trigger] m@.reloads.dom().contains(slot)
        },
{
}

/// Counting a request received adds one to that count alone.
pub proof fn requests_are_counted_alone(m: &mut Metrics)
    requires
        call_ensures(Metrics::inc_requests, (m,), ()),
        old(m)@.requests < u64::MAX,
    ensures
        final(m)@ == (MetricsView { requests: (old(m)@.requests + 1) as u64, ..old(m)@ }),
{
}

/// Counting a request forwarded adds one to that count alone.
pub proof fn forwarded_requests_are_counted_alone(m: &mut Metrics)
    requires
        call_ensures(Metrics::inc_upstream_requests, (m,), ()),
        old(m)@.upstream_requests < u64::MAX,
    ensures
        final(m)@ == (MetricsView {
            upstream_requests: (old(m)@.upstream_requests + 1) as u64,
            ..old(m)@
        }),
{
}

/// Counting an upstream failure adds one to that count alone.
pub proof fn failures_are_counted_alone(m: &mut Metrics)
    requires
        call_ensures(Metrics::inc_upstream_errors, (m,), ()),
        old(m)@.upstream_errors < u64::MAX,
    ensures
        final(m)@ == (MetricsView {
            upstream_errors: (old(m)@.upstream_errors + 1) as u64,
            ..old(m)@
        }),
{
}

/// Counting a retry adds one to that count alone.
pub proof fn retries_are_counted_alone(m: &mut Metrics)
    requires
        call_ensures(Metrics::inc_upstream_retries, (m,), ()),
        old(m)@.upstream_retries < u64::MAX,
    ensures
        final(m)@ == (MetricsView {
            upstream_retries: (old(m)@.upstream_retries + 1) as u64,
            ..old(m)@
        }),
{
}

/// Counting a request without a route adds one to that count alone.
pub proof fn missing_routes_are_counted_alone(m: &mut Metrics)
    requires
        call_ensures(Metrics::inc_route_not_found, (m,), ()),
        old(m)@.route_not_found < u64::MAX,
    ensures
        final(m)@ == (MetricsView {
            route_not_found: (old(m)@.route_not_found + 1) as u64,
            ..old(m)@
        }),
{
}

/// Counting a tunnel adds one to that count alone.
pub proof fn tunnels_are_counted_alone(m: &mut Metrics)
    requires
        call_ensures(Metrics::inc_websocket, (m,), ()),
        old(m)@.websockets < u64::MAX,
    ensures
        final(m)@ == (MetricsView { websockets: (old(m)@.websockets + 1) as u64, ..old(m)@ }),
{
}

/// A duration is kept behind those before it, and nothing else changes.
pub proof fn durations_are_kept_in_order(m: &mut Metrics, nanos: u64)
    requires
        call_ensures(Metrics::observe_duration, (m, nanos), ()),
    ensures
        final(m)@ == (MetricsView { durations: old(m)@.durations + seq![nanos], ..old(m)@ }),
{
    assert(old(m)@.durations.push(nanos) =~= old(m)@.durations + seq![nanos]);
}

/// A request that got a response counts as forwarded, one without a route as such, one
/// that failed for an upstream or for want of one as that, and one that was turned away
/// as nothing. No count moves by more than one.
pub proof fn outcomes_are_recorded(m: &mut Metrics, failure: Option<GatewayError>)
    requires
        call_ensures(Metrics::record, (m, failure), ()),
        old(m)@.upstream_requests < u64::MAX,
        old(m)@.upstream_errors < u64::MAX,
        old(m)@.route_not_found < u64::MAX,
    ensures
        failure is None ==> final(m)@ == (MetricsView {
            upstream_requests: (old(m)@.upstream_requests + 1) as u64,
            ..old(m)@
        }),
        failure == Some(GatewayError::RouteNotFound) ==> final(m)@ == (MetricsView {
            route_not_found: (old(m)@.route_not_found + 1) as u64,
            ..old(m)@
        }),
        failure matches Some(e) ==> (e is NoHealthyUpstream || e is UpstreamTimeout
            || e is UpstreamConnect || e is UpstreamMissing || e is BadGateway ==> final(m)@ == (
        MetricsView { upstream_errors: (old(m)@.upstream_errors + 1) as u64, ..old(m)@ })),
        failure matches Some(e) ==> (e is Forbidden || e is RateLimited || e is Unauthorized
            || e is PayloadTooLarge ==> final(m)@ == old(m)@),
{
}

/// A reload adds one to the count of its outcome, which starts at one, and leaves every
/// other slot as it was.
pub proof fn reloads_are_counted_by_outcome(m: &mut Metrics, success: bool, slot: u64)
    requires
        call_ensures(Metrics::inc_config_reload, (m, success), ()),
    ensures
        ({
            let label = if success {
                "success"@
            } else {
                "failure"@
            };
            let own = label_slot(label);
            &&& final(m)@.reloads.dom().contains(own)
            &&& !old(m)@.reloads.dom().contains(own) ==> final(m)@.reloads[own] == (label, 1u64)
            &&& old(m)@.reloads.dom().contains(own) && old(m)@.reloads[own].1 < u64::MAX
                ==> final(m)@.reloads[own] == (
                old(m)@.reloads[own].0,
                (old(m)@.reloads[own].1 + 1) as u64,
            )
            &&& slot != own ==> final(m)@.reloads.dom().contains(slot)
                == old(m)@.reloads.dom().contains(slot)
            &&& slot != own && old(m)@.reloads.dom().contains(slot) ==> final(m)@.reloads[slot]
                == old(m)@.reloads[slot]
        }),
        final(m)@ == (MetricsView { reloads: final(m)@.reloads, ..old(m)@ }),
{
}

/// A gauge that is set has that level, under its upstream where its slot was free, and no
/// other gauge changes.
pub proof fn gauges_hold_what_was_set(m: &mut Metrics, upstream: &str, healthy: i64, slot: u64)
    requires
        call_ensures(Metrics::set_upstream_healthy, (m, upstream, healthy), ()),
    ensures
        final(m)@.healthy.dom().contains(label_slot(upstream@)),
        final(m)@.healthy[label_slot(upstream@)].1 == healthy,
        !old(m)@.healthy.dom().contains(label_slot(upstream@))
            ==> final(m)@.healthy[label_slot(upstream@)].0 == upstream@,
        slot != label_slot(upstream@) ==> final(m)@.healthy.dom().contains(slot)
            == old(m)@.healthy.dom().contains(slot),
        slot != label_slot(upstream@) && old(m)@.healthy.dom().contains(slot)
            ==> final(m)@.healthy[slot] == old(m)@.healthy[slot],
        final(m)@ == (MetricsView { healthy: final(m)@.healthy, ..old(m)@ }),
{
}

/// A line of the text: a name, a space and a number, between line ends.
pub open spec fn has_line(text: Seq<char>, name: Seq<char>, count: nat) -> bool {
    occurs(seq!['\n'] + name + seq![' '] + decimal_of(count) + seq!['\n'], text)
}

/// The text has a line for each count, under its name, as far as whole numbers are
/// written exactly.
pub proof fn counts_are_shown(m: Metrics, text: String)
    requires
        call_ensures(Metrics::encode, (&m,), text),
        m.wf(),
        m@.durations.len() <= 0x20_0000_0000_0000,
        m@.requests <= 0x20_0000_0000_0000,
        m@.upstream_requests <= 0x20_0000_0000_0000,
        m@.upstream_errors <= 0x20_0000_0000_0000,
        m@.upstream_retries <= 0x20_0000_0000_0000,
        m@.route_not_found <= 0x20_0000_0000_0000,
        m@.websockets <= 0x20_0000_0000_0000,
    ensures
        has_line(text@, "gatepup_requests_total"@, m@.requests as nat),
        has_line(text@, "gatepup_request_duration_seconds_count"@, m@.durations.len()),
        has_line(text@, "gatepup_upstream_requests_total"@, m@.upstream_requests as nat),
        has_line(text@, "gatepup_upstream_errors_total"@, m@.upstream_errors as nat),
        has_line(text@, "gatepup_upstream_retries_total"@, m@.upstream_retries as nat),
        has_line(text@, "gatepup_route_not_found_total"@, m@.route_not_found as nat),
        has_line(text@, "gatepup_websocket_connections_total"@, m@.websockets as nat),
{
    reveal_strlit("\n");
    reveal_strlit(" ");
    assert("\n"@ =~= seq!['\n']);
    assert(" "@ =~= seq![' ']);
}

proof fn lemma_refreshed(
    levels: Map<u64, (Seq<char>, i64)>,
    upstreams: Seq<NamedUpstream>,
    n: int,
    u: int,
)
    requires
        0 <= u < n <= upstreams.len(),
        forall|v: int|
            u < v < n ==> label_slot((#[trigger] upstreams[v]).name@) != label_slot(
                upstreams[u].name@,
            ),
        upstreams[u].runtime.targets@.len() <= i64::MAX,
    ensures
        refreshed(levels, upstreams, n).dom().contains(label_slot(upstreams[u].name@)),
        refreshed(levels, upstreams, n)[label_slot(upstreams[u].name@)].1 == healthy_ones(
            upstreams[u].runtime.targets@,
        ).len(),
    decreases n,
{
    if u < n - 1 {
        lemma_refreshed(levels, upstreams, n - 1, u);
        assert(label_slot(upstreams[n - 1].name@) != label_slot(upstreams[u].name@));
    } else {
        let targets = upstreams[u].runtime.targets@;
        lemma_healthy_among(targets, targets.len() as int);
        assert(targets.take(targets.len() as int) =~= targets);
    }
}

/// The metrics endpoint shows, for each upstream, how many of its targets are healthy
/// now, and answers with the text of the metrics. (The slots of upstreams that come after
/// it must be others.)
pub proof fn healthy_targets_are_shown(
    metrics: &mut Metrics,
    snapshot: RuntimeConfig,
    r: Reply,
    u: int,
)
    requires
        call_ensures(metrics_reply, (metrics, &snapshot), r),
        0 <= u < snapshot.upstreams@.len(),
        forall|v: int|
            u < v < snapshot.upstreams@.len() ==> label_slot(
                (#[trigger] snapshot.upstreams@[v]).name@,
            ) != label_slot(snapshot.upstreams@[u].name@),
        snapshot.upstreams@[u].runtime.targets@.len() <= i64::MAX,
    ensures
        r.status == 200,
        final(metrics)@.healthy.dom().contains(label_slot(snapshot.upstreams@[u].name@)),
        final(metrics)@.healthy[label_slot(snapshot.upstreams@[u].name@)].1 == healthy_ones(
            snapshot.upstreams@[u].runtime.targets@,
        ).len(),
        final(metrics)@.requests == old(metrics)@.requests,
        final(metrics)@.upstream_requests == old(metrics)@.upstream_requests,
        final(metrics)@.upstream_errors == old(metrics)@.upstream_errors,
        final(metrics)@.durations == old(metrics)@.durations,
        final(metrics)@.reloads == old(metrics)@.reloads,
        final(metrics).wf() && final(metrics)@.durations.len() <= 0x20_0000_0000_0000
            && final(metrics)@.requests <= 0x20_0000_0000_0000 ==> has_line(
            r.body@,
            "gatepup_requests_total"@,
            final(metrics)@.requests as nat,
        ),
{
    lemma_refreshed(
        old(metrics)@.healthy,
        snapshot.upstreams@,
        snapshot.upstreams@.len() as int,
        u,
    );
    reveal_strlit("\n");
    reveal_strlit(" ");
    assert("\n"@ =~= seq!['\n']);
    assert(" "@ =~= seq![' ']);
}

} // verus!
