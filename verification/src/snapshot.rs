//! The runtime view of a configuration.
//!
//! A snapshot is built from a validated config. Handlers read the current one per
//! request; a reload puts a new one in its place.

use vstd::prelude::*;
use crate::access::{all_wf, networks, parse_networks};
use crate::compress::Compression;
use crate::error::ProxyError;
use crate::health::{HealthCheckSettings, HealthState, HealthView};
use crate::model::{
    GatePupConfig, HealthCheckConfig, ListenerConfig, TargetConfig, UpstreamConfig,
};
use crate::net::{parse_socket_address, socket_of, IpNetwork, SocketAddress};
use crate::router::{summary, CompiledRoute, Router};
use crate::schedule::{build_schedule, schedule_names_weighted_targets, schedule_of};
use crate::text::{
    comes_before, lemma_text_le_total, lemma_text_le_transitive, text_eq, text_le,
};
use crate::upstream::{RetryPolicy, TargetRuntime, UpstreamRuntime};
use crate::validator::{problems, upstream_named, valid_listeners, valid_upstreams};

verus! {

/// A listener at run time.
#[derive(Debug, Clone)]
pub struct ListenerRuntime {
    pub name: String,
    pub bind: SocketAddress,
    pub router: Router,
    /// Whether connections are taken over TLS.
    pub is_tls: bool,
}

/// An upstream and its name.
#[derive(Debug, Clone)]
pub struct NamedUpstream {
    pub name: String,
    pub runtime: UpstreamRuntime,
}

/// Runtime view of the configuration. Request handling changes nothing in it but
/// the health and the turn of targets.
#[derive(Debug, Clone)]
pub struct RuntimeConfig {
    pub listeners: Vec<ListenerRuntime>,
    /// The upstreams, each under a name of its own.
    pub upstreams: Vec<NamedUpstream>,
    /// Timeout for establishing the upstream connection (set on the client).
    pub connect_timeout_ms: u64,
    /// Timeout for the whole upstream round-trip (mapped to 504 on expiry).
    pub request_timeout_ms: u64,
    /// Max request body bytes; `0` = unlimited. A larger body is rejected (413).
    pub max_body_bytes: u64,
    /// Header-read timeout (slowloris guard); `None` = disabled. Connection-level.
    pub header_read_timeout_ms: Option<u64>,
    /// Max connection read-buffer bytes (bounds the header section); `None` keeps
    /// the server's default. Connection-level.
    pub max_header_bytes: Option<usize>,
    /// Trusted upstream proxy networks: when the direct peer is in one of these,
    /// the client IP is resolved from `X-Forwarded-For`. Empty = peer is client.
    pub trusted_proxies: Vec<IpNetwork>,
    /// Response compression, when it is on.
    pub compression: Option<Compression>,
}

/// The weights of a list of targets.
pub open spec fn weights_of(targets: Seq<TargetConfig>) -> Seq<u32> {
    targets.map_values(|t: TargetConfig| t.weight)
}

/// The schedule of an upstream: weighted or, where no target has a weight, every
/// target in turn.
pub open spec fn schedule_for(targets: Seq<TargetConfig>) -> Seq<usize> {
    if schedule_of(weights_of(targets)).len() == 0 {
        Seq::new(targets.len(), |i: int| i as usize)
    } else {
        schedule_of(weights_of(targets))
    }
}

/// The health state that the targets of an upstream start with. Health is managed
/// only where a health check is there and enabled.
pub open spec fn initial_health(hc: Option<HealthCheckConfig>) -> HealthView {
    match hc {
        Some(h) => HealthView::fresh(h.enabled, h.healthy_threshold, h.unhealthy_threshold),
        None => HealthView::fresh(false, 1, 3),
    }
}

/// The probe settings of an upstream whose health is managed.
pub open spec fn probe_settings(hc: Option<HealthCheckConfig>) -> Option<HealthCheckSettings> {
    match hc {
        Some(h) if h.enabled => Some(
            HealthCheckSettings {
                path: h.path,
                interval_seconds: h.interval_seconds,
                timeout_ms: h.timeout_ms,
            },
        ),
        _ => None,
    }
}

impl UpstreamRuntime {
    /// `self` is what an upstream config starts as.
    pub open spec fn follows(self, cfg: UpstreamConfig) -> bool {
        &&& self.wf()
        &&& self.targets@.len() == cfg.targets@.len()
        &&& forall|i: int|
            0 <= i < cfg.targets@.len() ==> (#[trigger] self.targets@[i]).url
                == cfg.targets@[i].url && self.targets@[i].state@ == initial_health(
                cfg.health_check,
            )
        &&& self.health == probe_settings(cfg.health_check)
        &&& match cfg.retries {
            Some(r) => match self.retry {
                Some(policy) => r.enabled && policy.follows(r),
                None => !r.enabled,
            },
            None => self.retry is None,
        }
        &&& self.tls_insecure_skip_verify == cfg.tls_insecure_skip_verify
        &&& self.schedule@ == schedule_for(cfg.targets@)
        &&& self.next == 0
    }

    /// What an upstream config starts as.
    pub fn from_config(cfg: &UpstreamConfig) -> (r: Self)
        ensures
            r.follows(*cfg),
    {
        // Health management is opt-in via an enabled health check. When off,
        // targets stay healthy and observations are no-ops.
        let (managed, healthy_threshold, unhealthy_threshold) = match &cfg.health_check {
            Some(h) => (h.enabled, h.healthy_threshold, h.unhealthy_threshold),
            None => (false, 1u32, 3u32),
        };
        let health: Option<HealthCheckSettings> = match &cfg.health_check {
            Some(h) => if h.enabled {
                Some(
                    HealthCheckSettings {
                        path: h.path.clone(),
                        interval_seconds: h.interval_seconds,
                        timeout_ms: h.timeout_ms,
                    },
                )
            } else {
                None
            },
            None => None,
        };
        let mut weights: Vec<u32> = Vec::new();
        let mut targets: Vec<TargetRuntime> = Vec::new();
        let mut i: usize = 0;
        while i < cfg.targets.len()
            invariant
                i <= cfg.targets.len(),
                targets.len() == i,
                weights.len() == i,
                HealthView::fresh(managed, healthy_threshold, unhealthy_threshold)
                    == initial_health(cfg.health_check),
                forall|j: int| 0 <= j < i ==> #[trigger] weights@[j] == cfg.targets@[j].weight,
                forall|j: int|
                    0 <= j < i ==> (#[trigger] targets@[j]).url == cfg.targets@[j].url
                        && targets@[j].state@ == initial_health(cfg.health_check),
            decreases cfg.targets.len() - i,
        {
            let target = &cfg.targets[i];
            weights.push(target.weight);
            targets.push(
                TargetRuntime {
                    url: target.url.clone(),
                    state: HealthState::new(managed, healthy_threshold, unhealthy_threshold),
                },
            );
            i += 1;
        }
        assert(weights@ =~= weights_of(cfg.targets@));
        let mut schedule = build_schedule(weights.as_slice());
        proof {
            schedule_names_weighted_targets(weights@);
        }
        // Defensive: a validated config has weight >= 1, but never serve an
        // upstream with targets yet an empty schedule.
        if schedule.len() == 0 {
            let mut k: usize = 0;
            while k < targets.len()
                invariant
                    k <= targets.len(),
                    schedule@ == Seq::new(k as nat, |i: int| i as usize),
                decreases targets.len() - k,
            {
                schedule.push(k);
                k += 1;
                assert(schedule@ == Seq::new(k as nat, |i: int| i as usize));
            }
        }
        let retry: Option<RetryPolicy> = match &cfg.retries {
            Some(r) => RetryPolicy::from_config(r),
            None => None,
        };
        UpstreamRuntime {
            targets,
            health,
            retry,
            tls_insecure_skip_verify: cfg.tls_insecure_skip_verify,
            schedule,
            next: 0,
        }
    }
}

/// No two upstreams have one name.
pub open spec fn names_differ(upstreams: Seq<NamedUpstream>) -> bool {
    forall|i: int, j: int|
        0 <= i < j < upstreams.len() ==> (#[trigger] upstreams[i]).name@ != (
        #[trigger] upstreams[j]).name@
}

/// The last of the first `n` upstreams of this name.
pub open spec fn last_named(
    upstreams: Seq<UpstreamConfig>,
    n: int,
    name: Seq<char>,
) -> Option<int>
    decreases n,
{
    if n <= 0 {
        None
    } else if upstreams[n - 1].name@ == name {
        Some(n - 1)
    } else {
        last_named(upstreams, n - 1, name)
    }
}

/// `upstreams` holds, under each name, what the last of the first `n` configs of
/// that name starts as.
#[verifier::opaque]
pub open spec fn upstreams_follow(
    upstreams: Seq<NamedUpstream>,
    cfgs: Seq<UpstreamConfig>,
    n: int,
) -> bool {
    &&& names_differ(upstreams)
    &&& forall|k: int|
        0 <= k < upstreams.len() ==> (last_named(cfgs, n, (#[trigger] upstreams[k]).name@) matches Some(
            i,
        ) && 0 <= i < n && upstreams[k].runtime.follows(cfgs[i]))
    &&& forall|i: int|
        0 <= i < n ==> exists|k: int|
            0 <= k < upstreams.len() && #[trigger] upstreams[k].name@ == (
            #[trigger] cfgs[i]).name@
}

/// Position of an upstream among those of a snapshot.
fn position(upstreams: &Vec<NamedUpstream>, name: &str) -> (r: Option<usize>)
    ensures
        match r {
            Some(i) => i < upstreams@.len() && upstreams@[i as int].name@ == name@,
            None => forall|j: int| 0 <= j < upstreams@.len() ==> #[trigger] upstreams@[j].name@ != name@,
        },
{
    let mut i: usize = 0;
    while i < upstreams.len()
        invariant
            i <= upstreams.len(),
            forall|j: int| 0 <= j < i ==> #[trigger] upstreams@[j].name@ != name@,
        decreases upstreams.len() - i,
    {
        if text_eq(upstreams[i].name.as_str(), name) {
            return Some(i);
        }
        i += 1;
    }
    None
}

/// The upstreams of a config, by name. A name that comes again replaces what it
/// stood for.
fn build_upstreams(cfgs: &Vec<UpstreamConfig>) -> (r: Vec<NamedUpstream>)
    ensures
        upstreams_follow(r@, cfgs@, cfgs@.len() as int),
{
    let mut out: Vec<NamedUpstream> = Vec::new();
    let mut i: usize = 0;
    proof {
        reveal(upstreams_follow);
    }
    while i < cfgs.len()
        invariant
            i <= cfgs.len(),
            upstreams_follow(out@, cfgs@, i as int),
        decreases cfgs.len() - i,
    {
        let cfg = &cfgs[i];
        let ghost before = out@;
        let entry = NamedUpstream {
            name: cfg.name.clone(),
            runtime: UpstreamRuntime::from_config(cfg),
        };
        match position(&out, cfg.name.as_str()) {
            Some(k) => {
                out.set(k, entry);
                assert(out@ == before.update(k as int, entry));
                proof {
                    lemma_upstream_added(before, out@, cfgs@, i as int, k as int);
                }
            },
            None => {
                out.push(entry);
                assert(out@ == before.push(entry));
                proof {
                    lemma_upstream_added(before, out@, cfgs@, i as int, before.len() as int);
                }
            },
        }
        i += 1;
    }
    out
}

/// Putting config `i` at position `k`, which holds its name or is the end, keeps
/// the upstreams in step with the configs.
proof fn lemma_upstream_added(
    before: Seq<NamedUpstream>,
    after: Seq<NamedUpstream>,
    cfgs: Seq<UpstreamConfig>,
    i: int,
    k: int,
)
    requires
        0 <= i < cfgs.len(),
        upstreams_follow(before, cfgs, i),
        0 <= k <= before.len(),
        after.len() == if k < before.len() {
            before.len()
        } else {
            before.len() + 1
        },
        after[k].name@ == cfgs[i].name@,
        after[k].runtime.follows(cfgs[i]),
        forall|j: int| 0 <= j < after.len() && j != k ==> #[trigger] after[j] == before[j],
        k < before.len() ==> before[k].name@ == cfgs[i].name@,
        k == before.len() ==> forall|j: int|
            0 <= j < before.len() ==> #[trigger] before[j].name@ != cfgs[i].name@,
    ensures
        upstreams_follow(after, cfgs, i + 1),
{
    reveal(upstreams_follow);
    assert forall|a: int, b: int| 0 <= a < b < after.len() implies (#[trigger] after[a]).name@ != (
    #[trigger] after[b]).name@ by {
        if k < before.len() {
            assert(before[a].name@ != before[b].name@);
        } else if b < before.len() {
            assert(before[a].name@ != before[b].name@);
        } else {
            assert(before[a].name@ != cfgs[i].name@);
        }
    }
    assert forall|j: int| 0 <= j < after.len() implies (last_named(
        cfgs,
        i + 1,
        (#[trigger] after[j]).name@,
    ) matches Some(p) && 0 <= p < i + 1 && after[j].runtime.follows(cfgs[p])) by {
        if j != k {
            assert(after[j] == before[j]);
            if k < before.len() {
                if j < k {
                    assert(before[j].name@ != before[k].name@);
                } else {
                    assert(before[k].name@ != before[j].name@);
                }
            }
        }
    }
    assert forall|p: int| 0 <= p < i + 1 implies exists|j: int|
        0 <= j < after.len() && #[trigger] after[j].name@ == (#[trigger] cfgs[p]).name@ by {
        if p == i {
            assert(after[k].name@ == cfgs[p].name@);
        } else {
            let j = choose|j: int|
                0 <= j < before.len() && #[trigger] before[j].name@ == cfgs[p].name@;
            assert(after[j].name@ == cfgs[p].name@);
        }
    }
}

/// What is wrong with a listener when its runtime is built: its address does not
/// parse, or its TLS acceptor could not be built. `failure` is what building the
/// acceptor gave, where it failed.
pub open spec fn listener_failure(
    listener: ListenerConfig,
    with_tls: bool,
    failure: Option<String>,
) -> Option<ProxyError> {
    if socket_of(listener.bind@) is None {
        Some(ProxyError::InvalidBind { name: listener.name, bind: listener.bind })
    } else if with_tls && listener.tls is Some && failure is Some {
        Some(ProxyError::Tls { listener: listener.name, message: failure->0 })
    } else {
        None
    }
}

/// The first failure among the first `n` listeners.
pub open spec fn first_failure(
    listeners: Seq<ListenerConfig>,
    with_tls: bool,
    failures: Seq<Option<String>>,
    n: int,
) -> Option<ProxyError>
    decreases n,
{
    if n <= 0 {
        None
    } else {
        match first_failure(listeners, with_tls, failures, n - 1) {
            Some(e) => Some(e),
            None => listener_failure(listeners[n - 1], with_tls, failures[n - 1]),
        }
    }
}

impl ListenerRuntime {
    /// `self` is what a listener config starts as.
    pub open spec fn follows(self, cfg: ListenerConfig, with_tls: bool) -> bool {
        &&& self.name == cfg.name
        &&& socket_of(cfg.bind@) == Some(self.bind)
        &&& self.router.follows(cfg.routes@)
        &&& self.router.wf()
        &&& self.is_tls == (with_tls && cfg.tls is Some)
    }
}

impl RuntimeConfig {
    /// Everything that request handling relies on.
    pub open spec fn wf(self) -> bool {
        &&& forall|i: int| 0 <= i < self.listeners@.len() ==> (#[trigger] self.listeners@[i]).router.wf()
        &&& forall|i: int| 0 <= i < self.upstreams@.len() ==> (#[trigger] self.upstreams@[i]).runtime.wf()
        &&& names_differ(self.upstreams@)
        &&& all_wf(self.trusted_proxies@)
    }

    /// `self` is the snapshot of a config.
    pub open spec fn follows(self, config: GatePupConfig, with_tls: bool) -> bool {
        &&& self.wf()
        &&& self.listeners@.len() == config.listeners@.len()
        &&& forall|i: int|
            0 <= i < config.listeners@.len() ==> (#[trigger] self.listeners@[i]).follows(
                config.listeners@[i],
                with_tls,
            )
        &&& upstreams_follow(
            self.upstreams@,
            config.upstreams@,
            config.upstreams@.len() as int,
        )
        &&& self.connect_timeout_ms == config.timeouts.connect_timeout_ms
        &&& self.request_timeout_ms == config.timeouts.request_timeout_ms
        &&& self.max_body_bytes == config.limits.max_body_bytes
        &&& self.header_read_timeout_ms == if config.limits.header_read_timeout_ms > 0 {
            Some(config.limits.header_read_timeout_ms)
        } else {
            None
        }
        &&& self.max_header_bytes == if config.limits.max_header_bytes > 0 {
            Some(config.limits.max_header_bytes)
        } else {
            None
        }
        &&& self.trusted_proxies@ == networks(
            config.trusted_proxies@,
            config.trusted_proxies@.len() as int,
        )
        &&& match config.compression {
            Some(cfg) => match self.compression {
                Some(c) => cfg.enabled && c.follows(cfg),
                None => !cfg.enabled,
            },
            None => self.compression is None,
        }
    }
}

fn build_snapshot_inner(
    config: &GatePupConfig,
    with_tls: bool,
    failures: &Vec<Option<String>>,
) -> (r: Result<RuntimeConfig, ProxyError>)
    requires
        with_tls ==> failures@.len() == config.listeners@.len(),
    ensures
        match r {
            Ok(snapshot) => first_failure(
                config.listeners@,
                with_tls,
                failures@,
                config.listeners@.len() as int,
            ) is None && snapshot.follows(*config, with_tls),
            Err(e) => first_failure(
                config.listeners@,
                with_tls,
                failures@,
                config.listeners@.len() as int,
            ) == Some(e),
        },
{
    let upstreams = build_upstreams(&config.upstreams);
    proof {
        reveal(upstreams_follow);
    }
    let mut listeners: Vec<ListenerRuntime> = Vec::new();
    let mut i: usize = 0;
    while i < config.listeners.len()
        invariant
            i <= config.listeners.len(),
            with_tls ==> failures@.len() == config.listeners@.len(),
            listeners.len() == i,
            first_failure(config.listeners@, with_tls, failures@, i as int) is None,
            forall|j: int|
                0 <= j < i ==> (#[trigger] listeners@[j]).follows(config.listeners@[j], with_tls),
        decreases config.listeners.len() - i,
    {
        let listener = &config.listeners[i];
        let bind = match parse_socket_address(listener.bind.as_str()) {
            Some(bind) => bind,
            None => {
                let e = ProxyError::InvalidBind {
                    name: listener.name.clone(),
                    bind: listener.bind.clone(),
                };
                proof {
                    lemma_failure_stays(
                        config.listeners@,
                        with_tls,
                        failures@,
                        i + 1,
                        config.listeners@.len() as int,
                    );
                }
                return Err(e);
            },
        };
        let is_tls = with_tls && listener.tls.is_some();
        if is_tls {
            if let Some(message) = &failures[i] {
                let e = ProxyError::Tls {
                    listener: listener.name.clone(),
                    message: message.clone(),
                };
                proof {
                    lemma_failure_stays(
                        config.listeners@,
                        with_tls,
                        failures@,
                        i + 1,
                        config.listeners@.len() as int,
                    );
                }
                return Err(e);
            }
        }
        listeners.push(
            ListenerRuntime {
                name: listener.name.clone(),
                bind,
                router: Router::build(&listener.routes),
                is_tls,
            },
        );
        i += 1;
    }
    let limits = config.limits;
    let compression: Option<Compression> = match &config.compression {
        Some(cfg) => Compression::from_config(cfg),
        None => None,
    };
    Ok(
        RuntimeConfig {
            listeners,
            upstreams,
            connect_timeout_ms: config.timeouts.connect_timeout_ms,
            request_timeout_ms: config.timeouts.request_timeout_ms,
            max_body_bytes: limits.max_body_bytes,
            header_read_timeout_ms: if limits.header_read_timeout_ms > 0 {
                Some(limits.header_read_timeout_ms)
            } else {
                None
            },
            max_header_bytes: if limits.max_header_bytes > 0 {
                Some(limits.max_header_bytes)
            } else {
                None
            },
            // Entries are validated before a snapshot is built; any that name no
            // network are dropped.
            trusted_proxies: parse_networks(&config.trusted_proxies),
            compression,
        },
    )
}

proof fn lemma_failure_stays(
    listeners: Seq<ListenerConfig>,
    with_tls: bool,
    failures: Seq<Option<String>>,
    a: int,
    b: int,
)
    requires
        0 <= a <= b,
        first_failure(listeners, with_tls, failures, a) is Some,
    ensures
        first_failure(listeners, with_tls, failures, b) == first_failure(
            listeners,
            with_tls,
            failures,
            a,
        ),
    decreases b,
{
    if a < b {
        lemma_failure_stays(listeners, with_tls, failures, a, b - 1);
    }
}

/// Build the runtime snapshot from a validated config. `failures` holds, for each
/// listener, why its TLS acceptor could not be built, where that failed. The first
/// listener that cannot be stood up is the error.
pub fn build_snapshot(config: &GatePupConfig, failures: &Vec<Option<String>>) -> (r: Result<
    RuntimeConfig,
    ProxyError,
>)
    requires
        failures@.len() == config.listeners@.len(),
    ensures
        match r {
            Ok(snapshot) => first_failure(
                config.listeners@,
                true,
                failures@,
                config.listeners@.len() as int,
            ) is None && snapshot.follows(*config, true),
            Err(e) => first_failure(
                config.listeners@,
                true,
                failures@,
                config.listeners@.len() as int,
            ) == Some(e),
        },
{
    build_snapshot_inner(config, true, failures)
}

/// Build a snapshot for a hot reload: identical, but WITHOUT TLS. Listener
/// bindings/acceptors are fixed at startup, so reload only swaps
/// routing/upstreams and must not depend on (or re-read) cert files.
pub fn build_reload_snapshot(config: &GatePupConfig) -> (r: Result<RuntimeConfig, ProxyError>)
    ensures
        match r {
            Ok(snapshot) => first_failure(
                config.listeners@,
                false,
                Seq::empty(),
                config.listeners@.len() as int,
            ) is None && snapshot.follows(*config, false),
            Err(e) => first_failure(
                config.listeners@,
                false,
                Seq::empty(),
                config.listeners@.len() as int,
            ) == Some(e),
        },
{
    let none: Vec<Option<String>> = Vec::new();
    assert(none@ == Seq::<Option<String>>::empty());
    build_snapshot_inner(config, false, &none)
}

/// Read-only route view for the admin API.
#[derive(Debug, Clone, PartialEq, Eq)]
pub struct RouteView {
    pub listener: String,
    pub name: String,
    pub host: Option<String>,
    pub path_prefix: String,
    pub upstream: String,
}

/// Read-only upstream view for the admin API.
#[derive(Debug, Clone, PartialEq, Eq)]
pub struct UpstreamView {
    pub name: String,
    pub targets: Vec<TargetView>,
}

#[derive(Debug, Clone, PartialEq, Eq)]
pub struct TargetView {
    pub url: String,
    pub healthy: bool,
    /// Unix epoch millis of the last health observation; 0 if never checked.
    pub last_check_epoch_ms: u64,
}

/// What the admin API shows of a route.
pub open spec fn shown_route(listener: ListenerRuntime, route: CompiledRoute) -> RouteView {
    RouteView {
        listener: listener.name,
        name: route.name,
        host: route.host,
        path_prefix: route.path_prefix,
        upstream: route.upstream,
    }
}

/// What the admin API shows of the routes of a listener.
pub open spec fn shown_routes(listener: ListenerRuntime) -> Seq<RouteView> {
    listener.router.routes@.map_values(|r: CompiledRoute| shown_route(listener, r))
}

/// What the admin API shows of the routes of the first `n` listeners.
pub open spec fn all_routes(listeners: Seq<ListenerRuntime>, n: int) -> Seq<RouteView>
    decreases n,
{
    if n <= 0 {
        Seq::empty()
    } else {
        all_routes(listeners, n - 1) + shown_routes(listeners[n - 1])
    }
}

/// What the admin API shows of a target.
pub open spec fn shown_target(t: TargetRuntime) -> TargetView {
    TargetView {
        url: t.url,
        healthy: t.state@.healthy,
        last_check_epoch_ms: t.state@.last_check_ms,
    }
}

/// What the admin API shows of an upstream: its name and its targets.
pub open spec fn shown_upstream(u: NamedUpstream) -> (String, Seq<TargetView>) {
    (u.name, u.runtime.targets@.map_values(|t: TargetRuntime| shown_target(t)))
}

/// What a view shows: its name and its targets.
pub open spec fn shown(v: UpstreamView) -> (String, Seq<TargetView>) {
    (v.name, v.targets@)
}

/// The views are in the order of their names.
pub open spec fn by_name(views: Seq<UpstreamView>) -> bool {
    forall|i: int, j: int|
        0 <= i < j < views.len() ==> text_le(
            (#[trigger] views[i]).name@,
            (#[trigger] views[j]).name@,
        )
}

/// How many of the first `n` targets are healthy.
pub open spec fn healthy_among(targets: Seq<TargetRuntime>, n: int) -> nat
    decreases n,
{
    if n <= 0 {
        0
    } else {
        healthy_among(targets, n - 1) + if targets[n - 1].state@.healthy {
            1nat
        } else {
            0
        }
    }
}

/// What the admin API shows of an upstream.
fn upstream_view(u: &NamedUpstream) -> (r: UpstreamView)
    ensures
        shown(r) == shown_upstream(*u),
{
    let mut targets: Vec<TargetView> = Vec::new();
    let mut i: usize = 0;
    while i < u.runtime.targets.len()
        invariant
            i <= u.runtime.targets.len(),
            targets.len() == i,
            forall|j: int|
                0 <= j < i ==> #[trigger] targets@[j] == shown_target(u.runtime.targets@[j]),
        decreases u.runtime.targets.len() - i,
    {
        let target = &u.runtime.targets[i];
        targets.push(
            TargetView {
                url: target.url.clone(),
                healthy: target.state.is_healthy(),
                last_check_epoch_ms: target.state.last_check_ms(),
            },
        );
        i += 1;
    }
    assert(targets@ =~= shown_upstream(*u).1);
    UpstreamView { name: u.name.clone(), targets }
}

/// Put a view into a list that is in order of names, and keep the order.
fn insert_by_name(views: &mut Vec<UpstreamView>, view: UpstreamView)
    requires
        by_name(old(views)@),
    ensures
        by_name(final(views)@),
        exists|i: int|
            0 <= i <= old(views)@.len() && final(views)@ == #[trigger] old(views)@.insert(i, view),
{
    let ghost before = views@;
    let mut i: usize = 0;
    while i < views.len() && comes_before(views[i].name.as_str(), view.name.as_str())
        invariant
            i <= views.len(),
            views@ == before,
            forall|j: int| 0 <= j < i ==> text_le((#[trigger] before[j]).name@, view.name@),
        decreases views.len() - i,
    {
        i += 1;
    }
    proof {
        if i < before.len() {
            lemma_text_le_total(before[i as int].name@, view.name@);
            assert forall|j: int| i <= j < before.len() implies text_le(
                view.name@,
                (#[trigger] before[j]).name@,
            ) by {
                if j > i {
                    lemma_text_le_transitive(
                        view.name@,
                        before[i as int].name@,
                        before[j].name@,
                    );
                }
            }
        }
        let after = before.insert(i as int, view);
        assert forall|a: int, b: int| 0 <= a < b < after.len() implies text_le(
            (#[trigger] after[a]).name@,
            (#[trigger] after[b]).name@,
        ) by {
            let p = if a < i {
                a
            } else {
                a - 1
            };
            let q = if b < i {
                b
            } else {
                b - 1
            };
            if a != i && b != i {
                assert(after[a] == before[p] && after[b] == before[q]);
                assert(text_le(before[p].name@, before[q].name@));
            } else if a == i {
                assert(after[b] == before[q]);
            } else {
                assert(after[a] == before[p]);
            }
        }
    }
    views.insert(i, view);
    assert(views@ == before.insert(i as int, view));
}

impl RuntimeConfig {
    /// All routes across all listeners, for `GET /routes`.
    pub fn routes(&self) -> (r: Vec<RouteView>)
        ensures
            r@ == all_routes(self.listeners@, self.listeners@.len() as int),
    {
        let mut out: Vec<RouteView> = Vec::new();
        let mut i: usize = 0;
        while i < self.listeners.len()
            invariant
                i <= self.listeners.len(),
                out@ == all_routes(self.listeners@, i as int),
            decreases self.listeners.len() - i,
        {
            let listener = &self.listeners[i];
            let summaries = listener.router.summaries();
            let ghost done = out@;
            let mut j: usize = 0;
            while j < summaries.len()
                invariant
                    j <= summaries.len(),
                    summaries@.len() == listener.router.routes@.len(),
                    forall|k: int|
                        0 <= k < summaries@.len() ==> #[trigger] summaries@[k] == summary(
                            listener.router.routes@[k],
                        ),
                    out@ == done + shown_routes(*listener).take(j as int),
                decreases summaries.len() - j,
            {
                let s = &summaries[j];
                let host: Option<String> = match &s.host {
                    Some(h) => Some(h.clone()),
                    None => None,
                };
                let view = RouteView {
                    listener: listener.name.clone(),
                    name: s.name.clone(),
                    host,
                    path_prefix: s.path_prefix.clone(),
                    upstream: s.upstream.clone(),
                };
                assert(view == shown_routes(*listener)[j as int]);
                out.push(view);
                j += 1;
                assert(out@ == done + shown_routes(*listener).take(j as int));
            }
            assert(shown_routes(*listener).take(summaries@.len() as int) == shown_routes(
                *listener,
            ));
            i += 1;
        }
        out
    }

    /// All upstreams with per-target health, for `GET /upstreams`. Sorted by name.
    pub fn upstreams_view(&self) -> (r: Vec<UpstreamView>)
        ensures
            by_name(r@),
            r@.map_values(|v: UpstreamView| shown(v)).to_multiset() == self.upstreams@.map_values(
                |u: NamedUpstream| shown_upstream(u),
            ).to_multiset(),
    {
        let ghost show = |v: UpstreamView| shown(v);
        let ghost all = self.upstreams@.map_values(|u: NamedUpstream| shown_upstream(u));
        let mut views: Vec<UpstreamView> = Vec::new();
        let mut i: usize = 0;
        assert(views@.map_values(show) =~= all.take(0));
        while i < self.upstreams.len()
            invariant
                i <= self.upstreams.len(),
                by_name(views@),
                show == (|v: UpstreamView| shown(v)),
                all == self.upstreams@.map_values(|u: NamedUpstream| shown_upstream(u)),
                views@.map_values(show).to_multiset() == all.take(i as int).to_multiset(),
            decreases self.upstreams.len() - i,
        {
            let view = upstream_view(&self.upstreams[i]);
            let ghost before = views@;
            insert_by_name(&mut views, view);
            proof {
                let k = choose|k: int|
                    0 <= k <= before.len() && views@ == #[trigger] before.insert(k, view);
                assert(views@.map_values(show) =~= before.map_values(show).insert(k, shown(view)));
                vstd::seq_lib::to_multiset_insert(before.map_values(show), k, shown(view));
                assert(all.take(i + 1) =~= all.take(i as int).push(all[i as int]));
                vstd::seq_lib::to_multiset_build(all.take(i as int), all[i as int]);
                assert(all[i as int] == shown(view));
            }
            i += 1;
        }
        assert(all.take(all.len() as int) =~= all);
        views
    }

    /// `(upstream, healthy target count)` pairs, for the metrics gauge.
    pub fn healthy_counts(&self) -> (r: Vec<(String, i64)>)
        ensures
            r@.len() == self.upstreams@.len(),
            forall|i: int|
                0 <= i < r@.len() ==> (#[trigger] r@[i]).0 == self.upstreams@[i].name && r@[i].1
                    == healthy_among(
                    self.upstreams@[i].runtime.targets@,
                    self.upstreams@[i].runtime.targets@.len() as int,
                ) as i64,
    {
        let mut out: Vec<(String, i64)> = Vec::new();
        let mut i: usize = 0;
        while i < self.upstreams.len()
            invariant
                i <= self.upstreams.len(),
                out.len() == i,
                forall|j: int|
                    0 <= j < i ==> (#[trigger] out@[j]).0 == self.upstreams@[j].name && out@[j].1
                        == healthy_among(
                        self.upstreams@[j].runtime.targets@,
                        self.upstreams@[j].runtime.targets@.len() as int,
                    ) as i64,
            decreases self.upstreams.len() - i,
        {
            let upstream = &self.upstreams[i];
            let mut count: usize = 0;
            let mut j: usize = 0;
            while j < upstream.runtime.targets.len()
                invariant
                    j <= upstream.runtime.targets.len(),
                    count <= j,
                    count == healthy_among(upstream.runtime.targets@, j as int),
                decreases upstream.runtime.targets.len() - j,
            {
                if upstream.runtime.targets[j].state.is_healthy() {
                    count += 1;
                }
                j += 1;
            }
            out.push((upstream.name.clone(), count as i64));
            i += 1;
        }
        out
    }

    /// The first listener of this name.
    pub open spec fn listener_at(self, n: int, name: Seq<char>) -> Option<int>
        decreases n,
    {
        if n <= 0 {
            None
        } else {
            match self.listener_at(n - 1, name) {
                Some(i) => Some(i),
                None => if self.listeners@[n - 1].name@ == name {
                    Some(n - 1)
                } else {
                    None
                },
            }
        }
    }

    /// The upstream of this name.
    pub open spec fn has_upstream_at(self, i: int, name: Seq<char>) -> bool {
        0 <= i < self.upstreams@.len() && self.upstreams@[i].name@ == name
    }

    /// Position of the first listener of this name.
    pub fn find_listener(&self, name: &str) -> (r: Option<usize>)
        ensures
            match r {
                Some(i) => i < self.listeners@.len() && self.listener_at(
                    self.listeners@.len() as int,
                    name@,
                ) == Some(i as int),
                None => self.listener_at(self.listeners@.len() as int, name@) is None,
            },
    {
        let mut i: usize = 0;
        while i < self.listeners.len()
            invariant
                i <= self.listeners.len(),
                self.listener_at(i as int, name@) is None,
            decreases self.listeners.len() - i,
        {
            if text_eq(self.listeners[i].name.as_str(), name) {
                proof {
                    assert(self.listener_at(i + 1, name@) == Some(i as int));
                    lemma_listener_stays(*self, i + 1, self.listeners@.len() as int, name@);
                }
                return Some(i);
            }
            i += 1;
        }
        None
    }

    /// Position of the upstream of this name.
    pub fn find_upstream(&self, name: &str) -> (r: Option<usize>)
        ensures
            match r {
                Some(i) => self.has_upstream_at(i as int, name@),
                None => forall|i: int| !self.has_upstream_at(i, name@),
            },
    {
        position(&self.upstreams, name)
    }
}

proof fn lemma_listener_stays(snapshot: RuntimeConfig, a: int, b: int, name: Seq<char>)
    requires
        0 <= a <= b,
        snapshot.listener_at(a, name) is Some,
    ensures
        snapshot.listener_at(b, name) == snapshot.listener_at(a, name),
    decreases b,
{
    if a < b {
        lemma_listener_stays(snapshot, a, b - 1, name);
    }
}

/// A config without problems builds: the only thing that can fail is TLS material.
pub proof fn valid_config_builds(
    config: GatePupConfig,
    with_tls: bool,
    failures: Seq<Option<String>>,
    n: int,
)
    requires
        problems(config).len() == 0,
        0 <= n <= config.listeners@.len(),
        with_tls ==> forall|i: int|
            0 <= i < config.listeners@.len() ==> (#[trigger] failures[i]) is None,
    ensures
        first_failure(config.listeners@, with_tls, failures, n) is None,
    decreases n,
{
    if n > 0 {
        valid_config_builds(config, with_tls, failures, n - 1);
        valid_listeners(config);
        assert(socket_of(config.listeners@[n - 1].bind@) is Some);
    }
}

/// In the snapshot of a config without problems every route leads to an upstream
/// that exists and has a target to take its turn.
pub proof fn valid_routes_lead_to_targets(
    config: GatePupConfig,
    snapshot: RuntimeConfig,
    with_tls: bool,
    i: int,
    j: int,
)
    requires
        problems(config).len() == 0,
        snapshot.follows(config, with_tls),
        0 <= i < snapshot.listeners@.len(),
        0 <= j < snapshot.listeners@[i].router.routes@.len(),
    ensures
        exists|k: int|
            #[trigger] snapshot.has_upstream_at(
                k,
                snapshot.listeners@[i].router.routes@[j].upstream@,
            ) && snapshot.upstreams@[k].runtime.schedule@.len() > 0,
{
    let ups = config.upstreams@;
    let n = ups.len() as int;
    let name = snapshot.listeners@[i].router.routes@[j].upstream@;
    assert(upstream_named(ups, n, name)) by {
        valid_listeners(config);
        assert(snapshot.listeners@[i].follows(config.listeners@[i], with_tls));
        assert(snapshot.listeners@[i].router.routes@[j].follows(config.listeners@[i].routes@[j]));
        assert(name == config.listeners@[i].routes@[j].upstream@);
    }
    let p = choose|p: int| 0 <= p < n && #[trigger] ups[p].name@ == name;
    let (k, q) = lemma_upstream_present(snapshot.upstreams@, ups, n, p);
    assert(snapshot.has_upstream_at(k, name));
    assert(ups[q].targets@.len() > 0 && ups[q].targets@[0].weight > 0) by {
        valid_upstreams(config);
        assert(ups[q].targets@.len() > 0);
        assert(config.upstreams@[q].targets@[0].weight > 0);
    }
    lemma_has_turn(ups[q], snapshot.upstreams@[k].runtime);
}

/// The upstream of a config stands in the snapshot under its name, and follows a
/// config of that name.
proof fn lemma_upstream_present(
    upstreams: Seq<NamedUpstream>,
    cfgs: Seq<UpstreamConfig>,
    n: int,
    p: int,
) -> (r: (int, int))
    requires
        upstreams_follow(upstreams, cfgs, n),
        0 <= p < n,
    ensures
        0 <= r.0 < upstreams.len(),
        upstreams[r.0].name@ == cfgs[p].name@,
        0 <= r.1 < n,
        upstreams[r.0].runtime.follows(cfgs[r.1]),
{
    reveal(upstreams_follow);
    let k = choose|k: int|
        0 <= k < upstreams.len() && #[trigger] upstreams[k].name@ == cfgs[p].name@;
    let q = last_named(cfgs, n, upstreams[k].name@)->0;
    (k, q)
}

/// An upstream with a weighted target has a schedule.
proof fn lemma_has_turn(cfg: UpstreamConfig, runtime: UpstreamRuntime)
    requires
        runtime.follows(cfg),
        cfg.targets@.len() > 0,
        cfg.targets@[0].weight > 0,
    ensures
        runtime.schedule@.len() > 0,
{
    let weights = weights_of(cfg.targets@);
    assert(weights[0] > 0);
    assert(runtime.targets@.len() == weights.len());
    if schedule_of(weights).len() == 0 {
        assert(runtime.schedule@.len() == cfg.targets@.len());
    }
}

}
