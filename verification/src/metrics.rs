//! Prometheus metrics of the proxy: request, upstream, retry, reload and tunnel
//! counters, the request durations and the healthy targets of each upstream.
use crate::error::MetricsError;
use crate::gateway::{client_fault, tally, tally_of, GatewayError, Tally};
use crate::text::{decimal_of, occurs};
use prometheus::Encoder;
use prometheus::Histogram;
use prometheus::HistogramOpts;
use prometheus::IntCounter;
use prometheus::IntCounterVec;
use prometheus::IntGaugeVec;
use prometheus::Opts;
use prometheus::Registry;
use prometheus::TextEncoder;
use vstd::prelude::*;

verus! {

/// A registry collects the metrics that are exposed together.
#[verifier::external_type_specification]
#[verifier::external_body]
pub struct ExRegistry(Registry);

/// A histogram counts its observations by size.
#[verifier::external_type_specification]
#[verifier::external_body]
pub struct ExHistogram(Histogram);

/// One counter of the prometheus crate. Its type has a parameter bound by a trait of
/// that crate, so it is held here as a whole.
#[verifier::external_body]
pub struct Counter {
    inner: IntCounter,
}

/// The prometheus crate's collection of counters that share a name and differ in the
/// value of their one label.
#[verifier::external_body]
pub struct CounterFamily {
    inner: IntCounterVec,
}

/// The prometheus crate's collection of gauges that share a name and differ in the
/// value of their one label.
#[verifier::external_body]
pub struct GaugeFamily {
    inner: IntGaugeVec,
}

/// The names that a registry has taken in.
pub uninterp spec fn registered(registry: Registry) -> Set<Seq<char>>;

/// What a counter has counted.
pub uninterp spec fn counted(counter: Counter) -> u64;

/// The observations of a histogram in nanoseconds, in the order in which they came.
pub uninterp spec fn observed(histogram: Histogram) -> Seq<u64>;

/// The counters of a family, by slot: the label value a slot was first used with and
/// its count.
pub uninterp spec fn counts(family: CounterFamily) -> Map<u64, (Seq<char>, u64)>;

/// The gauges of a family, by slot: the label value a slot was first used with and its
/// level.
pub uninterp spec fn levels(family: GaugeFamily) -> Map<u64, (Seq<char>, i64)>;

/// The slot under which a family keeps a label value: the FNV hash of its bytes, which
/// two label values may share.
pub uninterp spec fn label_slot(label: Seq<char>) -> u64;

/// Whether a registry collects this counter, under this name and help text.
pub uninterp spec fn holds_counter(
    registry: Registry,
    counter: Counter,
    name: Seq<char>,
    help: Seq<char>,
) -> bool;

/// Whether a registry collects this histogram, under this name and help text.
pub uninterp spec fn holds_histogram(
    registry: Registry,
    histogram: Histogram,
    name: Seq<char>,
    help: Seq<char>,
) -> bool;

/// Whether a registry collects this family of gauges, under this name and help text and
/// with this label.
pub uninterp spec fn holds_gauges(
    registry: Registry,
    family: GaugeFamily,
    name: Seq<char>,
    help: Seq<char>,
    label: Seq<char>,
) -> bool;

/// Whether a registry collects this family of counters, under this name and help text and
/// with this label.
pub uninterp spec fn holds_counters(
    registry: Registry,
    family: CounterFamily,
    name: Seq<char>,
    help: Seq<char>,
    label: Seq<char>,
) -> bool;

/// Whatever `before` collects, `after` collects too.
pub open spec fn keeps(before: Registry, after: Registry) -> bool {
    &&& forall|c: Counter, name: Seq<char>, help: Seq<char>|
        holds_counter(before, c, name, help) ==> #[trigger] holds_counter(after, c, name, help)
    &&& forall|h: Histogram, name: Seq<char>, help: Seq<char>|
        holds_histogram(before, h, name, help) ==> #[trigger] holds_histogram(
            after,
            h,
            name,
            help,
        )
    &&& forall|f: GaugeFamily, name: Seq<char>, help: Seq<char>, label: Seq<char>|
        holds_gauges(before, f, name, help, label) ==> #[trigger] holds_gauges(
            after,
            f,
            name,
            help,
            label,
        )
    &&& forall|f: CounterFamily, name: Seq<char>, help: Seq<char>, label: Seq<char>|
        holds_counters(before, f, name, help, label) ==> #[trigger] holds_counters(
            after,
            f,
            name,
            help,
            label,
        )
}

/// The same registries collect both counters.
pub open spec fn same_counter(before: Counter, after: Counter) -> bool {
    forall|r: Registry, name: Seq<char>, help: Seq<char>| #[trigger]
        holds_counter(r, after, name, help) == holds_counter(r, before, name, help)
}

/// The same registries collect both histograms.
pub open spec fn same_histogram(before: Histogram, after: Histogram) -> bool {
    forall|r: Registry, name: Seq<char>, help: Seq<char>| #[trigger]
        holds_histogram(r, after, name, help) == holds_histogram(r, before, name, help)
}

/// The same registries collect both families of gauges.
pub open spec fn same_gauges(before: GaugeFamily, after: GaugeFamily) -> bool {
    forall|r: Registry, name: Seq<char>, help: Seq<char>, label: Seq<char>| #[trigger]
        holds_gauges(r, after, name, help, label) == holds_gauges(r, before, name, help, label)
}

/// The same registries collect both families of counters.
pub open spec fn same_counters(before: CounterFamily, after: CounterFamily) -> bool {
    forall|r: Registry, name: Seq<char>, help: Seq<char>, label: Seq<char>| #[trigger]
        holds_counters(r, after, name, help, label) == holds_counters(r, before, name, help, label)
}

/// The names of the metrics of the proxy.
pub open spec fn metric_names() -> Set<Seq<char>> {
    set![
        "gatepup_requests_total"@,
        "gatepup_request_duration_seconds"@,
        "gatepup_upstream_requests_total"@,
        "gatepup_upstream_errors_total"@,
        "gatepup_upstream_retries_total"@,
        "gatepup_route_not_found_total"@,
        "gatepup_upstream_healthy"@,
        "gatepup_config_reloads_total"@,
        "gatepup_websocket_connections_total"@,
    ]
}

/// A count with one more event; counts wrap around.
pub open spec fn one_more(count: u64) -> u64 {
    if count == u64::MAX {
        0
    } else {
        (count + 1) as u64
    }
}

/// The counters of a family once the one of `label`, in `slot`, has gone up by one.
pub open spec fn counted_up(
    counts: Map<u64, (Seq<char>, u64)>,
    slot: u64,
    label: Seq<char>,
) -> Map<u64, (Seq<char>, u64)> {
    if counts.dom().contains(slot) {
        counts.insert(slot, (counts[slot].0, one_more(counts[slot].1)))
    } else {
        counts.insert(slot, (label, 1))
    }
}

/// The counter in a slot, or that there is none, is the same in both families.
pub open spec fn slot_kept(
    before: Map<u64, (Seq<char>, u64)>,
    after: Map<u64, (Seq<char>, u64)>,
    slot: u64,
) -> bool {
    &&& after.dom().contains(slot) == before.dom().contains(slot)
    &&& before.dom().contains(slot) ==> after[slot] == before[slot]
}

/// The gauges of a family once the one of `label`, in `slot`, has been set.
pub open spec fn leveled(
    levels: Map<u64, (Seq<char>, i64)>,
    slot: u64,
    label: Seq<char>,
    level: i64,
) -> Map<u64, (Seq<char>, i64)> {
    if levels.dom().contains(slot) {
        levels.insert(slot, (levels[slot].0, level))
    } else {
        levels.insert(slot, (label, level))
    }
}

/// `Registry::new` gives a registry without metrics.
#[verifier::external_body]
fn new_registry() -> (registry: Registry)
    ensures
        registered(registry) == Set::<Seq<char>>::empty(),
{
    Registry::new()
}

/// `IntCounter::new` makes a counter at zero and `Registry::register` takes it in,
/// unless the registry has the name already. A registry tells metrics apart by the FNV
/// hash of their names, and no two of the proxy's names share one.
#[verifier::external_body]
fn register_counter(registry: &mut Registry, name: &str, help: &str) -> (counter: Result<
    Counter,
    String,
>)
    requires
        metric_names().contains(name@),
        registered(*old(registry)).subset_of(metric_names()),
        help@.len() > 0,
    ensures
        registered(*final(registry)) == registered(*old(registry)).insert(name@),
        !registered(*old(registry)).contains(name@) ==> counter is Ok,
        counter matches Ok(c) ==> counted(c) == 0,
        counter matches Ok(c) ==> holds_counter(*final(registry), c, name@, help@),
        keeps(*old(registry), *final(registry)),
{
    let inner = IntCounter::new(name, help).map_err(|e| e.to_string())?;
    registry.register(Box::new(inner.clone())).map_err(|e| e.to_string())?;
    Ok(Counter { inner })
}

/// `Histogram::with_opts` makes a histogram without observations and
/// `Registry::register` takes it in, unless the registry has the name already.
#[verifier::external_body]
fn register_histogram(registry: &mut Registry, name: &str, help: &str) -> (histogram: Result<
    Histogram,
    String,
>)
    requires
        metric_names().contains(name@),
        registered(*old(registry)).subset_of(metric_names()),
        help@.len() > 0,
    ensures
        registered(*final(registry)) == registered(*old(registry)).insert(name@),
        !registered(*old(registry)).contains(name@) ==> histogram is Ok,
        histogram matches Ok(h) ==> observed(h).len() == 0,
        histogram matches Ok(h) ==> holds_histogram(*final(registry), h, name@, help@),
        keeps(*old(registry), *final(registry)),
{
    let opts = HistogramOpts::new(name, help);
    let histogram = Histogram::with_opts(opts).map_err(|e| e.to_string())?;
    registry.register(Box::new(histogram.clone())).map_err(|e| e.to_string())?;
    Ok(histogram)
}

/// `IntGaugeVec::new` makes a family without gauges, with the one label `label`, and
/// `Registry::register` takes it in, unless the registry has the name already.
#[verifier::external_body]
fn register_gauges(registry: &mut Registry, name: &str, help: &str, label: &str) -> (family: Result<
    GaugeFamily,
    String,
>)
    requires
        metric_names().contains(name@),
        registered(*old(registry)).subset_of(metric_names()),
        help@.len() > 0,
        label@ == "upstream"@,
    ensures
        registered(*final(registry)) == registered(*old(registry)).insert(name@),
        !registered(*old(registry)).contains(name@) ==> family is Ok,
        family matches Ok(f) ==> levels(f).dom() == Set::<u64>::empty(),
        family matches Ok(f) ==> holds_gauges(*final(registry), f, name@, help@, label@),
        keeps(*old(registry), *final(registry)),
{
    let inner = IntGaugeVec::new(Opts::new(name, help), &[label]).map_err(|e| e.to_string())?;
    registry.register(Box::new(inner.clone())).map_err(|e| e.to_string())?;
    Ok(GaugeFamily { inner })
}

/// `IntCounterVec::new` makes a family without counters, with the one label `label`,
/// and `Registry::register` takes it in, unless the registry has the name already.
#[verifier::external_body]
fn register_counters(
    registry: &mut Registry,
    name: &str,
    help: &str,
    label: &str,
) -> (family: Result<CounterFamily, String>)
    requires
        metric_names().contains(name@),
        registered(*old(registry)).subset_of(metric_names()),
        help@.len() > 0,
        label@ == "result"@,
    ensures
        registered(*final(registry)) == registered(*old(registry)).insert(name@),
        !registered(*old(registry)).contains(name@) ==> family is Ok,
        family matches Ok(f) ==> counts(f).dom() == Set::<u64>::empty(),
        family matches Ok(f) ==> holds_counters(*final(registry), f, name@, help@, label@),
        keeps(*old(registry), *final(registry)),
{
    let inner = IntCounterVec::new(Opts::new(name, help), &[label]).map_err(|e| e.to_string())?;
    registry.register(Box::new(inner.clone())).map_err(|e| e.to_string())?;
    Ok(CounterFamily { inner })
}

/// `IntCounter::inc` adds one to the counter.
#[verifier::external_body]
fn increment(counter: &mut Counter)
    ensures
        counted(*final(counter)) == one_more(counted(*old(counter))),
        same_counter(*old(counter), *final(counter)),
{
    counter.inner.inc();
}

/// `IntCounterVec::with_label_values` finds the counter in the label value's slot, or
/// puts a new one there, and `IntCounter::inc` adds one to it. The FNV hashes of
/// `success` and `failure` differ, so neither touches the other's counter.
#[verifier::external_body]
fn increment_labelled(family: &mut CounterFamily, label: &str)
    ensures
        counts(*final(family)) == counted_up(
            counts(*old(family)),
            label_slot(label@),
            label@,
        ),
        same_counters(*old(family), *final(family)),
        label@ == "success"@ ==> slot_kept(
            counts(*old(family)),
            counts(*final(family)),
            label_slot("failure"@),
        ),
        label@ == "failure"@ ==> slot_kept(
            counts(*old(family)),
            counts(*final(family)),
            label_slot("success"@),
        ),
{
    family.inner.with_label_values(&[label]).inc();
}

/// `IntGaugeVec::with_label_values` finds the gauge in the label value's slot, or puts
/// a new one there, and `IntGauge::set` gives it the level.
#[verifier::external_body]
fn set_labelled(family: &mut GaugeFamily, label: &str, level: i64)
    ensures
        levels(*final(family)) == leveled(
            levels(*old(family)),
            label_slot(label@),
            label@,
            level,
        ),
        same_gauges(*old(family), *final(family)),
{
    family.inner.with_label_values(&[label]).set(level);
}

/// `Histogram::observe` adds one observation, in seconds, behind those that the
/// histogram has.
#[verifier::external_body]
fn observe(histogram: &mut Histogram, nanos: u64)
    ensures
        observed(*final(histogram)) == observed(*old(histogram)).push(nanos),
        same_histogram(*old(histogram), *final(histogram)),
{
    histogram.observe(std::time::Duration::from_nanos(nanos).as_secs_f64());
}

/// The metrics of the proxy. The counters go up on the request path; the healthy
/// targets are set when the metrics are read.
pub struct Metrics {
    registry: Registry,
    requests_total: Counter,
    request_duration: Histogram,
    upstream_requests_total: Counter,
    upstream_errors_total: Counter,
    upstream_retries_total: Counter,
    route_not_found_total: Counter,
    upstream_healthy: GaugeFamily,
    config_reloads_total: CounterFamily,
    websocket_connections_total: Counter,
}

/// What the metrics hold.
pub struct MetricsView {
    pub names: Set<Seq<char>>,
    pub requests: u64,
    /// In nanoseconds, in the order in which they came.
    pub durations: Seq<u64>,
    pub upstream_requests: u64,
    pub upstream_errors: u64,
    pub upstream_retries: u64,
    pub route_not_found: u64,
    pub healthy: Map<u64, (Seq<char>, i64)>,
    pub reloads: Map<u64, (Seq<char>, u64)>,
    pub websockets: u64,
}

impl View for Metrics {
    type V = MetricsView;

    closed spec fn view(&self) -> MetricsView {
        MetricsView {
            names: registered(self.registry),
            requests: counted(self.requests_total),
            durations: observed(self.request_duration),
            upstream_requests: counted(self.upstream_requests_total),
            upstream_errors: counted(self.upstream_errors_total),
            upstream_retries: counted(self.upstream_retries_total),
            route_not_found: counted(self.route_not_found_total),
            healthy: levels(self.upstream_healthy),
            reloads: counts(self.config_reloads_total),
            websockets: counted(self.websocket_connections_total),
        }
    }
}

/// The label value of a reload's outcome.
pub open spec fn reload_label(success: bool) -> Seq<char> {
    if success {
        "success"@
    } else {
        "failure"@
    }
}

/// The slot of an outcome of reloads, where it is used, has that outcome as its label
/// value.
pub open spec fn outcome_named(reloads: Map<u64, (Seq<char>, u64)>, success: bool) -> bool {
    let slot = label_slot(reload_label(success));
    reloads.dom().contains(slot) ==> reloads[slot].0 == reload_label(success)
}

/// How many reloads had this outcome.
pub open spec fn reload_count(m: MetricsView, success: bool) -> u64 {
    let slot = label_slot(reload_label(success));
    if m.reloads.dom().contains(slot) {
        m.reloads[slot].1
    } else {
        0
    }
}

impl Metrics {
    /// The registry collects exactly these metrics, each under its own name, and the
    /// reloads are kept under their outcomes.
    pub closed spec fn wf(self) -> bool {
        &&& outcome_named(counts(self.config_reloads_total), true)
        &&& outcome_named(counts(self.config_reloads_total), false)
        &&& registered(self.registry) == metric_names()
        &&& holds_counter(
            self.registry,
            self.requests_total,
            "gatepup_requests_total"@,
            "Total requests received"@,
        )
        &&& holds_histogram(
            self.registry,
            self.request_duration,
            "gatepup_request_duration_seconds"@,
            "Request duration in seconds"@,
        )
        &&& holds_counter(
            self.registry,
            self.upstream_requests_total,
            "gatepup_upstream_requests_total"@,
            "Requests forwarded to an upstream"@,
        )
        &&& holds_counter(
            self.registry,
            self.upstream_errors_total,
            "gatepup_upstream_errors_total"@,
            "Upstream failures (connect/timeout/5xx mapped to gateway errors)"@,
        )
        &&& holds_counter(
            self.registry,
            self.upstream_retries_total,
            "gatepup_upstream_retries_total"@,
            "Upstream attempts that were retried onto another target"@,
        )
        &&& holds_counter(
            self.registry,
            self.route_not_found_total,
            "gatepup_route_not_found_total"@,
            "Requests that matched no route"@,
        )
        &&& holds_gauges(
            self.registry,
            self.upstream_healthy,
            "gatepup_upstream_healthy"@,
            "Number of healthy targets per upstream"@,
            "upstream"@,
        )
        &&& holds_counters(
            self.registry,
            self.config_reloads_total,
            "gatepup_config_reloads_total"@,
            "Config reload attempts"@,
            "result"@,
        )
        &&& holds_counter(
            self.registry,
            self.websocket_connections_total,
            "gatepup_websocket_connections_total"@,
            "Upgraded (WebSocket) connections tunneled"@,
        )
    }
}

/// A line of the exposition after its first: a metric and its value, with the line end
/// before it and its own.
pub open spec fn sample(metric: Seq<char>, value: Seq<char>) -> Seq<char> {
    "\n"@ + metric + " "@ + value + "\n"@
}

/// A member of a family in the exposition.
pub open spec fn labelled(name: Seq<char>, label: Seq<char>, value: Seq<char>) -> Seq<char> {
    name + "{"@ + label + "=\""@ + value + "\"}"@
}

/// A label value that is written as it is.
pub open spec fn plain_label(value: Seq<char>) -> bool {
    !value.contains('\\') && !value.contains('"') && !value.contains('\n')
}

/// A whole number with its sign.
pub open spec fn signed_decimal(n: int) -> Seq<char> {
    if n < 0 {
        "-"@ + decimal_of((-n) as nat)
    } else {
        decimal_of(n as nat)
    }
}

/// The whole numbers up to this one are written exactly: values go through floating
/// point numbers with 53 bits.
pub const MAX_EXACT: u64 = 0x20_0000_0000_0000;

/// The text has a line with this count.
pub open spec fn shows_count(text: Seq<char>, metric: Seq<char>, count: nat) -> bool {
    count <= MAX_EXACT ==> occurs(sample(metric, decimal_of(count)), text)
}

/// What the text shows of the metrics: a line for each counter, for the number of
/// durations, for each gauge and for each outcome of reloads.
pub open spec fn exposes(text: Seq<char>, m: MetricsView) -> bool {
    &&& shows_count(text, "gatepup_requests_total"@, m.requests as nat)
    &&& shows_count(text, "gatepup_request_duration_seconds_count"@, m.durations.len())
    &&& shows_count(text, "gatepup_upstream_requests_total"@, m.upstream_requests as nat)
    &&& shows_count(text, "gatepup_upstream_errors_total"@, m.upstream_errors as nat)
    &&& shows_count(text, "gatepup_upstream_retries_total"@, m.upstream_retries as nat)
    &&& shows_count(text, "gatepup_route_not_found_total"@, m.route_not_found as nat)
    &&& shows_count(text, "gatepup_websocket_connections_total"@, m.websockets as nat)
    &&& forall|slot: u64| #[trigger]
        m.healthy.dom().contains(slot) && plain_label(m.healthy[slot].0) && -MAX_EXACT
            <= m.healthy[slot].1 <= MAX_EXACT ==> occurs(
            sample(
                labelled("gatepup_upstream_healthy"@, "upstream"@, m.healthy[slot].0),
                signed_decimal(m.healthy[slot].1 as int),
            ),
            text,
        )
    &&& forall|slot: u64| #[trigger]
        m.reloads.dom().contains(slot) && plain_label(m.reloads[slot].0) ==> shows_count(
            text,
            labelled("gatepup_config_reloads_total"@, "result"@, m.reloads[slot].0),
            m.reloads[slot].1 as nat,
        )
}

/// The text exposition of metrics that hold this: the requests received, their durations,
/// the requests forwarded, failed, retried and without a route, the healthy targets, the
/// reloads and the tunnels.
pub uninterp spec fn exposition_of(
    requests: u64,
    durations: Seq<u64>,
    upstream_requests: u64,
    upstream_errors: u64,
    upstream_retries: u64,
    route_not_found: u64,
    healthy: Map<u64, (Seq<char>, i64)>,
    reloads: Map<u64, (Seq<char>, u64)>,
    websockets: u64,
) -> Seq<char>;

/// The text exposition of metrics.
pub open spec fn text_of_metrics(m: MetricsView) -> Seq<char> {
    exposition_of(
        m.requests,
        m.durations,
        m.upstream_requests,
        m.upstream_errors,
        m.upstream_retries,
        m.route_not_found,
        m.healthy,
        m.reloads,
        m.websockets,
    )
}

/// `Registry::gather` collects the metrics in the order of their names and the members
/// of a family in the order of their label values, and `TextEncoder::encode` writes them
/// out. The text is named: where the registry collects these metrics alone, it depends on
/// what they hold and on nothing else. Of its lines those with a counter, a gauge or the
/// number of durations are stated, for label values that need no escapes; the buckets and
/// the sum of the durations are floating point. A histogram counts its observations in 63
/// bits, and nothing is claimed of more than that.
#[verifier::external_body]
fn exposition(metrics: &Metrics) -> (text: String)
    ensures
        metrics.wf() && metrics@.durations.len() < 0x8000_0000_0000_0000 ==> text@
            == exposition_of(
            metrics@.requests,
            metrics@.durations,
            metrics@.upstream_requests,
            metrics@.upstream_errors,
            metrics@.upstream_retries,
            metrics@.route_not_found,
            metrics@.healthy,
            metrics@.reloads,
            metrics@.websockets,
        ),
        metrics.wf() && metrics@.durations.len() < 0x8000_0000_0000_0000 ==> exposes(
            text@,
            metrics@,
        ),
{
    let mut bytes = Vec::new();
    let _ = TextEncoder::new().encode(&metrics.registry.gather(), &mut bytes);
    String::from_utf8(bytes).unwrap_or_default()
}

/// The metrics of a proxy that has done nothing yet.
pub open spec fn fresh_metrics() -> MetricsView {
    MetricsView {
        names: metric_names(),
        requests: 0,
        durations: Seq::empty(),
        upstream_requests: 0,
        upstream_errors: 0,
        upstream_retries: 0,
        route_not_found: 0,
        healthy: Map::empty(),
        reloads: Map::empty(),
        websockets: 0,
    }
}

/// The metrics once a request has been dealt with that counts as this.
pub open spec fn recorded(before: MetricsView, counts_as: Tally) -> MetricsView {
    match counts_as {
        Tally::UpstreamRequest => MetricsView {
            upstream_requests: one_more(before.upstream_requests),
            ..before
        },
        Tally::RouteNotFound => MetricsView {
            route_not_found: one_more(before.route_not_found),
            ..before
        },
        Tally::UpstreamError => MetricsView {
            upstream_errors: one_more(before.upstream_errors),
            ..before
        },
        Tally::Nothing => before,
    }
}

/// The names of the metrics differ.
proof fn lemma_names_differ()
    ensures
        "gatepup_requests_total"@.len() == 22,
        "gatepup_request_duration_seconds"@.len() == 32,
        "gatepup_upstream_requests_total"@.len() == 31,
        "gatepup_upstream_errors_total"@.len() == 29,
        "gatepup_upstream_retries_total"@.len() == 30,
        "gatepup_route_not_found_total"@.len() == 29,
        "gatepup_upstream_healthy"@.len() == 24,
        "gatepup_config_reloads_total"@.len() == 28,
        "gatepup_websocket_connections_total"@.len() == 35,
        "gatepup_upstream_errors_total"@ != "gatepup_route_not_found_total"@,
{
    reveal_strlit("gatepup_requests_total");
    reveal_strlit("gatepup_request_duration_seconds");
    reveal_strlit("gatepup_upstream_requests_total");
    reveal_strlit("gatepup_upstream_errors_total");
    reveal_strlit("gatepup_upstream_retries_total");
    reveal_strlit("gatepup_route_not_found_total");
    reveal_strlit("gatepup_upstream_healthy");
    reveal_strlit("gatepup_config_reloads_total");
    reveal_strlit("gatepup_websocket_connections_total");
    assert("gatepup_upstream_errors_total"@[8] != "gatepup_route_not_found_total"@[8]);
}

/// The help texts of the metrics are not empty.
proof fn lemma_help_texts()
    ensures
        "Total requests received"@.len() > 0,
        "Request duration in seconds"@.len() > 0,
        "Requests forwarded to an upstream"@.len() > 0,
        "Upstream failures (connect/timeout/5xx mapped to gateway errors)"@.len() > 0,
        "Upstream attempts that were retried onto another target"@.len() > 0,
        "Requests that matched no route"@.len() > 0,
        "Number of healthy targets per upstream"@.len() > 0,
        "Config reload attempts"@.len() > 0,
        "Upgraded (WebSocket) connections tunneled"@.len() > 0,
{
    reveal_strlit("Total requests received");
    reveal_strlit("Request duration in seconds");
    reveal_strlit("Requests forwarded to an upstream");
    reveal_strlit("Upstream failures (connect/timeout/5xx mapped to gateway errors)");
    reveal_strlit("Upstream attempts that were retried onto another target");
    reveal_strlit("Requests that matched no route");
    reveal_strlit("Number of healthy targets per upstream");
    reveal_strlit("Config reload attempts");
    reveal_strlit("Upgraded (WebSocket) connections tunneled");
}

impl Metrics {
    /// All metrics, registered and at zero. The setup does not fail.
    pub fn new() -> (metrics: Result<Self, MetricsError>)
        ensures
            metrics matches Ok(m) && m@ == fresh_metrics() && m.wf(),
    {
        proof {
            lemma_names_differ();
            lemma_help_texts();
        }
        let mut registry = new_registry();
        let requests_total = match register_counter(
            &mut registry,
            "gatepup_requests_total",
            "Total requests received",
        ) {
            Ok(c) => c,
            Err(e) => return Err(MetricsError(e)),
        };
        let request_duration = match register_histogram(
            &mut registry,
            "gatepup_request_duration_seconds",
            "Request duration in seconds",
        ) {
            Ok(h) => h,
            Err(e) => return Err(MetricsError(e)),
        };
        let upstream_requests_total = match register_counter(
            &mut registry,
            "gatepup_upstream_requests_total",
            "Requests forwarded to an upstream",
        ) {
            Ok(c) => c,
            Err(e) => return Err(MetricsError(e)),
        };
        let upstream_errors_total = match register_counter(
            &mut registry,
            "gatepup_upstream_errors_total",
            "Upstream failures (connect/timeout/5xx mapped to gateway errors)",
        ) {
            Ok(c) => c,
            Err(e) => return Err(MetricsError(e)),
        };
        let upstream_retries_total = match register_counter(
            &mut registry,
            "gatepup_upstream_retries_total",
            "Upstream attempts that were retried onto another target",
        ) {
            Ok(c) => c,
            Err(e) => return Err(MetricsError(e)),
        };
        let route_not_found_total = match register_counter(
            &mut registry,
            "gatepup_route_not_found_total",
            "Requests that matched no route",
        ) {
            Ok(c) => c,
            Err(e) => return Err(MetricsError(e)),
        };
        let upstream_healthy = match register_gauges(
            &mut registry,
            "gatepup_upstream_healthy",
            "Number of healthy targets per upstream",
            "upstream",
        ) {
            Ok(f) => f,
            Err(e) => return Err(MetricsError(e)),
        };
        let config_reloads_total = match register_counters(
            &mut registry,
            "gatepup_config_reloads_total",
            "Config reload attempts",
            "result",
        ) {
            Ok(f) => f,
            Err(e) => return Err(MetricsError(e)),
        };
        let websocket_connections_total = match register_counter(
            &mut registry,
            "gatepup_websocket_connections_total",
            "Upgraded (WebSocket) connections tunneled",
        ) {
            Ok(c) => c,
            Err(e) => return Err(MetricsError(e)),
        };
        assert(registered(registry) =~= metric_names());
        assert(levels(upstream_healthy) =~= fresh_metrics().healthy);
        assert(counts(config_reloads_total) =~= fresh_metrics().reloads);
        assert(observed(request_duration) =~= fresh_metrics().durations);
        Ok(
            Metrics {
                registry,
                requests_total,
                request_duration,
                upstream_requests_total,
                upstream_errors_total,
                upstream_retries_total,
                route_not_found_total,
                upstream_healthy,
                config_reloads_total,
                websocket_connections_total,
            },
        )
    }

    /// Counts a request received.
    pub fn inc_requests(&mut self)
        ensures
            final(self).wf() == old(self).wf(),
            final(self)@ == (MetricsView { requests: one_more(old(self)@.requests), ..old(self)@ }),
    {
        increment(&mut self.requests_total);
    }

    /// Records how long a request took, in nanoseconds.
    pub fn observe_duration(&mut self, nanos: u64)
        ensures
            final(self).wf() == old(self).wf(),
            final(self)@ == (MetricsView {
                durations: old(self)@.durations.push(nanos),
                ..old(self)@
            }),
    {
        observe(&mut self.request_duration, nanos);
    }

    /// Counts a request sent to an upstream.
    pub fn inc_upstream_requests(&mut self)
        ensures
            final(self).wf() == old(self).wf(),
            final(self)@ == (MetricsView {
                upstream_requests: one_more(old(self)@.upstream_requests),
                ..old(self)@
            }),
    {
        increment(&mut self.upstream_requests_total);
    }

    /// Counts an upstream failure.
    pub fn inc_upstream_errors(&mut self)
        ensures
            final(self).wf() == old(self).wf(),
            final(self)@ == (MetricsView {
                upstream_errors: one_more(old(self)@.upstream_errors),
                ..old(self)@
            }),
    {
        increment(&mut self.upstream_errors_total);
    }

    /// Counts an attempt that was retried.
    pub fn inc_upstream_retries(&mut self)
        ensures
            final(self).wf() == old(self).wf(),
            final(self)@ == (MetricsView {
                upstream_retries: one_more(old(self)@.upstream_retries),
                ..old(self)@
            }),
    {
        increment(&mut self.upstream_retries_total);
    }

    /// Counts a request that matched no route.
    pub fn inc_route_not_found(&mut self)
        ensures
            final(self).wf() == old(self).wf(),
            final(self)@ == (MetricsView {
                route_not_found: one_more(old(self)@.route_not_found),
                ..old(self)@
            }),
    {
        increment(&mut self.route_not_found_total);
    }

    /// Counts a request that has been dealt with, given how it failed, where it did.
    pub fn record(&mut self, failure: Option<GatewayError>)
        ensures
            final(self).wf() == old(self).wf(),
            final(self)@ == recorded(old(self)@, tally_of(failure)),
    {
        match tally(failure) {
            Tally::UpstreamRequest => self.inc_upstream_requests(),
            Tally::RouteNotFound => self.inc_route_not_found(),
            Tally::UpstreamError => self.inc_upstream_errors(),
            Tally::Nothing => {},
        }
    }

    /// Counts a tunneled connection.
    pub fn inc_websocket(&mut self)
        ensures
            final(self).wf() == old(self).wf(),
            final(self)@ == (MetricsView {
                websockets: one_more(old(self)@.websockets),
                ..old(self)@
            }),
    {
        increment(&mut self.websocket_connections_total);
    }

    /// Counts a reload attempt, by its outcome.
    pub fn inc_config_reload(&mut self, success: bool)
        ensures
            final(self).wf() == old(self).wf(),
            reload_count(final(self)@, success) == one_more(reload_count(old(self)@, success)),
            reload_count(final(self)@, !success) == reload_count(old(self)@, !success),
            final(self)@ == (MetricsView {
                reloads: counted_up(
                    old(self)@.reloads,
                    label_slot(reload_label(success)),
                    reload_label(success),
                ),
                ..old(self)@
            }),
    {
        let result = if success {
            "success"
        } else {
            "failure"
        };
        increment_labelled(&mut self.config_reloads_total, result);
    }

    /// Sets the number of healthy targets of an upstream.
    pub fn set_upstream_healthy(&mut self, upstream: &str, healthy: i64)
        ensures
            final(self).wf() == old(self).wf(),
            final(self)@ == (MetricsView {
                healthy: leveled(
                    old(self)@.healthy,
                    label_slot(upstream@),
                    upstream@,
                    healthy,
                ),
                ..old(self)@
            }),
    {
        set_labelled(&mut self.upstream_healthy, upstream, healthy);
    }

    /// All metrics in the Prometheus text exposition format. The number of durations is
    /// kept in 63 bits.
    pub fn encode(&self) -> (text: String)
        ensures
            self.wf() && self@.durations.len() < 0x8000_0000_0000_0000 ==> text@
                == text_of_metrics(self@) && exposes(text@, self@),
    {
        exposition(self)
    }
}

/// Reloads are shown by their outcome: once there was one with this outcome, the text has
/// a line with that outcome and its count.
pub proof fn reloads_are_shown_by_outcome(m: Metrics, text: Seq<char>, success: bool)
    requires
        m.wf(),
        exposes(text, m@),
        0 < reload_count(m@, success) <= MAX_EXACT,
    ensures
        occurs(
            sample(
                labelled("gatepup_config_reloads_total"@, "result"@, reload_label(success)),
                decimal_of(reload_count(m@, success) as nat),
            ),
            text,
        ),
{
    reveal_strlit("success");
    reveal_strlit("failure");
    assert(m@.reloads.dom().contains(label_slot(reload_label(success))));
}

/// A request that was turned away for a fault of the client counts against no upstream,
/// neither as forwarded nor as failed.
pub proof fn client_faults_count_against_no_upstream(before: MetricsView, e: GatewayError)
    requires
        client_fault(e),
    ensures
        recorded(before, tally_of(Some(e))).upstream_errors == before.upstream_errors,
        recorded(before, tally_of(Some(e))).upstream_requests == before.upstream_requests,
{
}

} // verus!
