//! What a config becomes at run time, and what is shown of it.

use vstd::prelude::*;
use crate::access::networks;
use crate::error::ProxyError;
use crate::health::HealthView;
use crate::laws::admission::entry_names;
use crate::laws::balance::stands_in;
use crate::laws::plans::{first_listener, lemma_listener_at};
use crate::laws::routing::{lemma_stands_for, stands_for};
use crate::model::{GatePupConfig, HealthCheckConfig, ListenerConfig, UpstreamConfig};
use crate::net::{cidr_of, network_of, socket_of, IpNetwork};
use crate::schedule::schedule_of;
use crate::snapshot::{
    all_routes, build_reload_snapshot, build_snapshot, first_failure, healthy_among, last_named,
    shown, shown_routes, shown_target, shown_upstream, upstreams_follow, weights_of,
    ListenerRuntime, NamedUpstream, RouteView, RuntimeConfig, UpstreamView,
};
use crate::text::{lower, text_le};
use crate::upstream::{TargetRuntime, UpstreamRuntime};
use crate::uri::is_token;

verus! {

/// How a target starts under a health check: healthy and never observed, with the
/// thresholds of the check, of which 0 counts as 1; without an enabled check it is not
/// managed.
pub open spec fn starts_under(health: HealthView, check: Option<HealthCheckConfig>) -> bool {
    &&& health.healthy
    &&& health.successes == 0
    &&& health.failures == 0
    &&& health.last_check_ms == 0
    &&& health.managed == (check matches Some(hc) && hc.enabled)
    &&& check matches Some(hc) ==> {
        &&& hc.healthy_threshold > 0 ==> health.healthy_threshold == hc.healthy_threshold
        &&& hc.unhealthy_threshold > 0 ==> health.unhealthy_threshold == hc.unhealthy_threshold
        &&& hc.healthy_threshold == 0 ==> health.healthy_threshold == 1
        &&& hc.unhealthy_threshold == 0 ==> health.unhealthy_threshold == 1
    }
}

/// An upstream as its config has it start: the targets in their order, probes where the
/// health check is enabled, retries where they are, and the first turn to come.
pub open spec fn starts_as(upstream: UpstreamRuntime, cfg: UpstreamConfig) -> bool {
    &&& upstream.targets@.len() == cfg.targets@.len()
    &&& forall|i: int|
        0 <= i < cfg.targets@.len() ==> (#[trigger] upstream.targets@[i]).url == cfg.targets@[i].url
    &&& forall|i: int|
        0 <= i < cfg.targets@.len() ==> starts_under(
            (#[trigger] upstream.targets@[i]).state@,
            cfg.health_check,
        )
    &&& match upstream.health {
        Some(probe) => cfg.health_check matches Some(hc) && hc.enabled && probe.path == hc.path
            && probe.interval_seconds == hc.interval_seconds && probe.timeout_ms == hc.timeout_ms,
        None => !(cfg.health_check matches Some(hc) && hc.enabled),
    }
    &&& upstream.retry is Some == (cfg.retries matches Some(r) && r.enabled)
    &&& upstream.retry matches Some(policy) ==> {
        let retries = cfg.retries->0;
        &&& retries.attempts > 0 ==> policy.max_attempts == retries.attempts
        &&& retries.attempts == 0 ==> policy.max_attempts == 1
        &&& policy.on_5xx == stands_in(retries.retry_on@, "upstream_5xx"@)
        &&& policy.on_connect_failure == (stands_in(retries.retry_on@, "connect_error"@)
            || stands_in(retries.retry_on@, "connect_timeout"@))
        &&& forall|m: Seq<char>| #[trigger]
            stands_in(policy.methods@, m) == (is_token(m) && stands_in(retries.methods@, m))
    }
    &&& upstream.tls_insecure_skip_verify == cfg.tls_insecure_skip_verify
    &&& upstream.next == 0
    &&& (forall|i: int| 0 <= i < cfg.targets@.len() ==> (#[trigger] cfg.targets@[i]).weight == 0)
        ==> upstream.schedule@.len() == cfg.targets@.len() && forall|i: int|
        0 <= i < upstream.schedule@.len() ==> #[trigger] upstream.schedule@[i] == i
}

proof fn lemma_starts_as(upstream: UpstreamRuntime, cfg: UpstreamConfig)
    requires
        upstream.follows(cfg),
    ensures
        starts_as(upstream, cfg),
{
    if let Some(policy) = upstream.retry {
        assert forall|m: Seq<char>| #[trigger] stands_in(policy.methods@, m) == (is_token(m)
            && stands_in(cfg.retries->0.methods@, m)) by {
            assert(policy.allows(m) == stands_in(policy.methods@, m));
        }
    }
    let weights = weights_of(cfg.targets@);
    if forall|i: int| 0 <= i < cfg.targets@.len() ==> (#[trigger] cfg.targets@[i]).weight == 0 {
        assert(upstream.targets.len() == weights.len());
        if schedule_of(weights).len() > 0 {
            let first = schedule_of(weights)[0];
            crate::schedule::schedule_names_weighted_targets(weights);
            assert(weights[first as int] == cfg.targets@[first as int].weight);
        }
    }
}

/// An upstream starts as its config says.
pub proof fn upstreams_start_as_configured(cfg: UpstreamConfig, r: UpstreamRuntime)
    requires
        call_ensures(UpstreamRuntime::from_config, (&cfg,), r),
    ensures
        starts_as(r, cfg),
{
    lemma_starts_as(r, cfg);
}

/// The listeners in their order, each at its address, over TLS where it has TLS material
/// and that counts, with its routes in their order.
pub open spec fn mirrors_listeners(
    snapshot: RuntimeConfig,
    config: GatePupConfig,
    with_tls: bool,
) -> bool {
    &&& snapshot.listeners@.len() == config.listeners@.len()
    &&& forall|i: int|
        0 <= i < config.listeners@.len() ==> {
            let listener = #[trigger] snapshot.listeners@[i];
            &&& listener.name == config.listeners@[i].name
            &&& socket_of(config.listeners@[i].bind@) == Some(listener.bind)
            &&& listener.is_tls == (with_tls && config.listeners@[i].tls is Some)
            &&& listener.router.routes@.len() == config.listeners@[i].routes@.len()
            &&& forall|j: int|
                0 <= j < listener.router.routes@.len() ==> stands_for(
                    #[trigger] listener.router.routes@[j],
                    config.listeners@[i].routes@[j],
                )
        }
}

/// For each name the last upstream of that name, and no name twice.
pub open spec fn mirrors_upstreams(
    upstreams: Seq<NamedUpstream>,
    cfgs: Seq<UpstreamConfig>,
) -> bool {
    &&& forall|i: int|
        0 <= i < cfgs.len() && (forall|k: int|
            i < k < cfgs.len() ==> (#[trigger] cfgs[k]).name@ != cfgs[i].name@) ==> has_started(
            upstreams,
            #[trigger] cfgs[i],
        )
    &&& forall|u: int|
        0 <= u < upstreams.len() ==> exists|i: int|
            0 <= i < cfgs.len() && (#[trigger] cfgs[i]).name@ == (#[trigger] upstreams[u]).name@
    &&& forall|u: int, v: int|
        0 <= u < v < upstreams.len() ==> (#[trigger] upstreams[u]).name@ != (
        #[trigger] upstreams[v]).name@
}

/// One of the upstreams has the name of the config and starts as it says.
pub open spec fn has_started(upstreams: Seq<NamedUpstream>, cfg: UpstreamConfig) -> bool {
    exists|u: int|
        0 <= u < upstreams.len() && (#[trigger] upstreams[u]).name@ == cfg.name@ && starts_as(
            upstreams[u].runtime,
            cfg,
        )
}

/// The timeouts and limits, where 0 stands for no header timeout and no header limit, and
/// compression where it is enabled.
pub open spec fn mirrors_settings(snapshot: RuntimeConfig, config: GatePupConfig) -> bool {
    &&& snapshot.connect_timeout_ms == config.timeouts.connect_timeout_ms
    &&& snapshot.request_timeout_ms == config.timeouts.request_timeout_ms
    &&& snapshot.max_body_bytes == config.limits.max_body_bytes
    &&& match snapshot.header_read_timeout_ms {
        Some(ms) => ms == config.limits.header_read_timeout_ms && ms > 0,
        None => config.limits.header_read_timeout_ms == 0,
    }
    &&& match snapshot.max_header_bytes {
        Some(bytes) => bytes == config.limits.max_header_bytes && bytes > 0,
        None => config.limits.max_header_bytes == 0,
    }
    &&& snapshot.compression is Some == (config.compression matches Some(c) && c.enabled)
    &&& snapshot.compression matches Some(c) ==> {
        let cfg = config.compression->0;
        &&& c.min_bytes == cfg.min_bytes
        &&& c.gzip == stands_in(cfg.algorithms@, "gzip"@)
        &&& c.br == stands_in(cfg.algorithms@, "br"@)
        &&& c.types@.len() == cfg.types@.len()
        &&& forall|i: int|
            0 <= i < cfg.types@.len() ==> #[trigger] c.types@[i]@ == lower(cfg.types@[i]@)
    }
}

/// The trusted proxies are the networks that the entries name, and no others.
pub open spec fn mirrors_proxies(nets: Seq<IpNetwork>, entries: Seq<String>) -> bool {
    &&& forall|i: int|
        0 <= i < entries.len() && entry_names((#[trigger] entries[i])@) ==> exists|p: int|
            0 <= p < nets.len() && #[trigger] is_network_of(nets[p], entries[i]@)
    &&& forall|p: int| 0 <= p < nets.len() ==> is_named(#[trigger] nets[p], entries)
}

/// One of the entries names this network.
pub open spec fn is_named(net: IpNetwork, entries: Seq<String>) -> bool {
    exists|i: int| 0 <= i < entries.len() && is_network_of(net, (#[trigger] entries[i])@)
}

/// The entry names this network.
pub open spec fn is_network_of(net: IpNetwork, entry: Seq<char>) -> bool {
    network_of(cidr_of(entry), entry) == Some(net)
}

/// A snapshot as its config says.
pub open spec fn mirrors(snapshot: RuntimeConfig, config: GatePupConfig, with_tls: bool) -> bool {
    &&& mirrors_listeners(snapshot, config, with_tls)
    &&& mirrors_upstreams(snapshot.upstreams@, config.upstreams@)
    &&& mirrors_settings(snapshot, config)
    &&& mirrors_proxies(snapshot.trusted_proxies@, config.trusted_proxies@)
}

proof fn lemma_last_named(cfgs: Seq<UpstreamConfig>, n: int, i: int)
    requires
        0 <= i < n <= cfgs.len(),
        forall|k: int| i < k < n ==> (#[trigger] cfgs[k]).name@ != cfgs[i].name@,
    ensures
        last_named(cfgs, n, cfgs[i].name@) == Some(i),
    decreases n,
{
    if i < n - 1 {
        assert(cfgs[n - 1].name@ != cfgs[i].name@);
        lemma_last_named(cfgs, n - 1, i);
    }
}

proof fn lemma_named(cfgs: Seq<UpstreamConfig>, n: int, name: Seq<char>)
    requires
        0 <= n <= cfgs.len(),
    ensures
        last_named(cfgs, n, name) matches Some(i) ==> 0 <= i < n && cfgs[i].name@ == name,
    decreases n,
{
    if n > 0 {
        lemma_named(cfgs, n - 1, name);
    }
}

proof fn lemma_networks(entries: Seq<String>, n: int)
    requires
        0 <= n <= entries.len(),
    ensures
        mirrors_proxies(networks(entries, n), entries.take(n)),
    decreases n,
{
    let all = networks(entries, n);
    let upto = entries.take(n);
    if n > 0 {
        lemma_networks(entries, n - 1);
        let front = networks(entries, n - 1);
        let less = entries.take(n - 1);
        let last = entries[n - 1]@;
        assert(upto[n - 1]@ == last);
        assert forall|i: int| 0 <= i < n && entry_names((#[trigger] upto[i])@) implies exists|p: int|
            0 <= p < all.len() && #[trigger] is_network_of(all[p], upto[i]@) by {
            if i < n - 1 {
                assert(less[i] == upto[i]);
                let p = choose|p: int|
                    0 <= p < front.len() && #[trigger] is_network_of(front[p], less[i]@);
                assert(is_network_of(all[p], upto[i]@));
            } else {
                assert(is_network_of(all[all.len() - 1], upto[i]@));
            }
        }
        assert forall|p: int| 0 <= p < all.len() implies is_named(#[trigger] all[p], upto) by {
            if p < front.len() {
                assert(is_named(front[p], less));
                let i = choose|i: int|
                    0 <= i < less.len() && is_network_of(front[p], (#[trigger] less[i])@);
                assert(is_network_of(all[p], upto[i]@));
            } else {
                assert(is_network_of(all[p], upto[n - 1]@));
            }
        }
    }
}

proof fn lemma_upstreams(upstreams: Seq<NamedUpstream>, cfgs: Seq<UpstreamConfig>)
    requires
        upstreams_follow(upstreams, cfgs, cfgs.len() as int),
    ensures
        mirrors_upstreams(upstreams, cfgs),
{
    reveal(upstreams_follow);
    let n = cfgs.len() as int;
    assert forall|i: int|
        0 <= i < cfgs.len() && (forall|k: int|
            i < k < cfgs.len() ==> (#[trigger] cfgs[k]).name@
                != cfgs[i].name@) implies has_started(upstreams, #[trigger] cfgs[i]) by {
        let u = choose|u: int|
            0 <= u < upstreams.len() && #[trigger] upstreams[u].name@ == cfgs[i].name@;
        lemma_last_named(cfgs, n, i);
        lemma_starts_as(upstreams[u].runtime, cfgs[i]);
    }
    assert forall|u: int| 0 <= u < upstreams.len() implies exists|i: int|
        0 <= i < cfgs.len() && (#[trigger] cfgs[i]).name@ == (#[trigger] upstreams[u]).name@ by {
        lemma_named(cfgs, n, upstreams[u].name@);
        let i = last_named(cfgs, n, upstreams[u].name@)->0;
        assert(cfgs[i].name@ == upstreams[u].name@);
    }
}

/// What follows its config mirrors it.
pub proof fn lemma_mirrors(snapshot: RuntimeConfig, config: GatePupConfig, with_tls: bool)
    requires
        snapshot.follows(config, with_tls),
    ensures
        mirrors(snapshot, config, with_tls),
{
    lemma_upstreams(snapshot.upstreams@, config.upstreams@);
    let entries = config.trusted_proxies@;
    lemma_networks(entries, entries.len() as int);
    assert(entries.take(entries.len() as int) =~= entries);
    assert(mirrors_listeners(snapshot, config, with_tls)) by {
        assert forall|i: int| 0 <= i < config.listeners@.len() implies {
            let listener = #[trigger] snapshot.listeners@[i];
            &&& listener.name == config.listeners@[i].name
            &&& socket_of(config.listeners@[i].bind@) == Some(listener.bind)
            &&& listener.is_tls == (with_tls && config.listeners@[i].tls is Some)
            &&& listener.router.routes@.len() == config.listeners@[i].routes@.len()
            &&& forall|j: int|
                0 <= j < listener.router.routes@.len() ==> stands_for(
                    #[trigger] listener.router.routes@[j],
                    config.listeners@[i].routes@[j],
                )
        } by {
            let listener = snapshot.listeners@[i];
            assert(listener.follows(config.listeners@[i], with_tls));
            assert forall|j: int| 0 <= j < listener.router.routes@.len() implies stands_for(
                #[trigger] listener.router.routes@[j],
                config.listeners@[i].routes@[j],
            ) by {
                lemma_stands_for(listener.router.routes@[j], config.listeners@[i].routes@[j]);
            }
        }
    }
}

/// What keeps a listener from being stood up: an address that does not parse or, at the
/// start, TLS material that could not be used.
pub open spec fn cannot_stand(
    listener: ListenerConfig,
    with_tls: bool,
    failure: Option<String>,
) -> bool {
    socket_of(listener.bind@) is None || with_tls && listener.tls is Some && failure is Some
}

proof fn lemma_first_failure(
    listeners: Seq<ListenerConfig>,
    with_tls: bool,
    failures: Seq<Option<String>>,
    n: int,
)
    requires
        0 <= n <= listeners.len(),
    ensures
        match first_failure(listeners, with_tls, failures, n) {
            None => forall|i: int|
                0 <= i < n ==> !cannot_stand(#[trigger] listeners[i], with_tls, failures[i]),
            Some(e) => exists|i: int|
                {
                    &&& 0 <= i < n
                    &&& cannot_stand(#[trigger] listeners[i], with_tls, failures[i])
                    &&& forall|k: int|
                        0 <= k < i ==> !cannot_stand(#[trigger] listeners[k], with_tls, failures[k])
                    &&& names_listener(e, listeners[i])
                },
        },
    decreases n,
{
    if n > 0 {
        lemma_first_failure(listeners, with_tls, failures, n - 1);
        if first_failure(listeners, with_tls, failures, n - 1) is None && cannot_stand(
            listeners[n - 1],
            with_tls,
            failures[n - 1],
        ) {
            assert(names_listener(
                first_failure(listeners, with_tls, failures, n)->0,
                listeners[n - 1],
            ));
        }
    }
}

/// The error is that of this listener: its address where that does not parse, or else its
/// TLS material.
pub open spec fn names_listener(e: ProxyError, listener: ListenerConfig) -> bool {
    match e {
        ProxyError::InvalidBind { name, bind } => name == listener.name && bind == listener.bind
            && socket_of(listener.bind@) is None,
        ProxyError::Tls { listener: name, .. } => name == listener.name && socket_of(
            listener.bind@,
        ) is Some,
        _ => false,
    }
}

/// A snapshot mirrors its config, and is to be had unless a listener cannot be stood up;
/// the first such listener is the error.
pub proof fn snapshots_mirror_their_config(
    config: GatePupConfig,
    failures: Vec<Option<String>>,
    r: Result<RuntimeConfig, ProxyError>,
)
    requires
        failures@.len() == config.listeners@.len(),
        call_ensures(build_snapshot, (&config, &failures), r),
    ensures
        r is Err <==> exists|i: int|
            0 <= i < config.listeners@.len() && cannot_stand(
                #[trigger] config.listeners@[i],
                true,
                failures@[i],
            ),
        match r {
            Ok(snapshot) => mirrors(snapshot, config, true),
            Err(e) => exists|i: int|
                {
                    &&& 0 <= i < config.listeners@.len()
                    &&& cannot_stand(#[trigger] config.listeners@[i], true, failures@[i])
                    &&& forall|k: int|
                        0 <= k < i ==> !cannot_stand(
                            #[trigger] config.listeners@[k],
                            true,
                            failures@[k],
                        )
                    &&& names_listener(e, config.listeners@[i])
                },
        },
{
    lemma_first_failure(config.listeners@, true, failures@, config.listeners@.len() as int);
    if let Ok(snapshot) = r {
        lemma_mirrors(snapshot, config, true);
    }
}

/// A snapshot for a reload mirrors its config too, but takes no TLS material: only an
/// address that does not parse keeps it from being built.
pub proof fn reloads_leave_tls_alone(config: GatePupConfig, r: Result<RuntimeConfig, ProxyError>)
    requires
        call_ensures(build_reload_snapshot, (&config,), r),
    ensures
        r is Err <==> exists|i: int|
            0 <= i < config.listeners@.len() && socket_of(
                (#[trigger] config.listeners@[i]).bind@,
            ) is None,
        r matches Ok(snapshot) ==> mirrors(snapshot, config, false),
{
    let none = Seq::<Option<String>>::empty();
    lemma_first_failure(config.listeners@, false, none, config.listeners@.len() as int);
    assert forall|i: int| 0 <= i < config.listeners@.len() implies cannot_stand(
        #[trigger] config.listeners@[i],
        false,
        none[i],
    ) == (socket_of(config.listeners@[i].bind@) is None) by {}
    if let Ok(snapshot) = r {
        lemma_mirrors(snapshot, config, false);
    }
}

/// How many routes the first `n` listeners have.
pub open spec fn routes_before(listeners: Seq<ListenerRuntime>, n: int) -> nat
    decreases n,
{
    if n <= 0 {
        0
    } else {
        routes_before(listeners, n - 1) + listeners[n - 1].router.routes@.len()
    }
}

proof fn lemma_all_routes(listeners: Seq<ListenerRuntime>, n: int, i: int, j: int)
    requires
        0 <= i < n <= listeners.len(),
        0 <= j < listeners[i].router.routes@.len(),
    ensures
        all_routes(listeners, n).len() == routes_before(listeners, n),
        routes_before(listeners, i) + j < routes_before(listeners, n),
        all_routes(listeners, n)[routes_before(listeners, i) + j] == shown_routes(listeners[i])[j],
    decreases n,
{
    if i < n - 1 {
        lemma_all_routes(listeners, n - 1, i, j);
    } else {
        lemma_routes_len(listeners, n - 1);
    }
}

proof fn lemma_routes_len(listeners: Seq<ListenerRuntime>, n: int)
    requires
        0 <= n <= listeners.len(),
    ensures
        all_routes(listeners, n).len() == routes_before(listeners, n),
    decreases n,
{
    if n > 0 {
        lemma_routes_len(listeners, n - 1);
    }
}

/// Every route is shown once, with its listener, its match and its upstream, listener by
/// listener in their order.
pub proof fn every_route_is_shown(snapshot: RuntimeConfig, r: Vec<RouteView>, i: int, j: int)
    requires
        call_ensures(RuntimeConfig::routes, (&snapshot,), r),
    ensures
        r@.len() == routes_before(snapshot.listeners@, snapshot.listeners@.len() as int),
        0 <= i < snapshot.listeners@.len() && 0 <= j < snapshot.listeners@[i].router.routes@.len()
            ==> {
            let k = routes_before(snapshot.listeners@, i) + j;
            let route = snapshot.listeners@[i].router.routes@[j];
            &&& k < r@.len()
            &&& r@[k].listener == snapshot.listeners@[i].name
            &&& r@[k].name == route.name
            &&& r@[k].host == route.host
            &&& r@[k].path_prefix == route.path_prefix
            &&& r@[k].upstream == route.upstream
        },
{
    lemma_routes_len(snapshot.listeners@, snapshot.listeners@.len() as int);
    if 0 <= i < snapshot.listeners@.len() && 0 <= j < snapshot.listeners@[i].router.routes@.len() {
        lemma_all_routes(snapshot.listeners@, snapshot.listeners@.len() as int, i, j);
    }
}

/// A view shows an upstream: its name and, target by target, the address, the health and
/// the time of the last observation.
pub open spec fn shows(view: UpstreamView, upstream: NamedUpstream) -> bool {
    &&& view.name == upstream.name
    &&& view.targets@.len() == upstream.runtime.targets@.len()
    &&& forall|t: int|
        0 <= t < view.targets@.len() ==> {
            let target = upstream.runtime.targets@[t];
            &&& (#[trigger] view.targets@[t]).url == target.url
            &&& view.targets@[t].healthy == target.state@.healthy
            &&& view.targets@[t].last_check_epoch_ms == target.state@.last_check_ms
        }
}

/// Every upstream is shown, in the order of the names, and nothing else is.
pub proof fn every_upstream_is_shown(snapshot: RuntimeConfig, r: Vec<UpstreamView>, u: int)
    requires
        call_ensures(RuntimeConfig::upstreams_view, (&snapshot,), r),
    ensures
        r@.len() == snapshot.upstreams@.len(),
        forall|i: int, j: int|
            0 <= i < j < r@.len() ==> text_le((#[trigger] r@[i]).name@, (#[trigger] r@[j]).name@),
        0 <= u < snapshot.upstreams@.len() ==> exists|i: int|
            0 <= i < r@.len() && shows(#[trigger] r@[i], snapshot.upstreams@[u]),
{
    let seen = r@.map_values(|v: UpstreamView| shown(v));
    let all = snapshot.upstreams@.map_values(|u: NamedUpstream| shown_upstream(u));
    seen.to_multiset_ensures();
    all.to_multiset_ensures();
    assert(seen.len() == all.len());
    if 0 <= u < snapshot.upstreams@.len() {
        assert(all.contains(all[u]));
        assert(seen.to_multiset().count(all[u]) > 0);
        assert(seen.contains(all[u]));
        let i = choose|i: int| 0 <= i < seen.len() && seen[i] == all[u];
        let upstream = snapshot.upstreams@[u];
        let targets = upstream.runtime.targets@.map_values(|t: TargetRuntime| shown_target(t));
        assert(r@[i].targets@ == targets);
        assert forall|t: int| 0 <= t < r@[i].targets@.len() implies {
            let target = upstream.runtime.targets@[t];
            &&& (#[trigger] r@[i].targets@[t]).url == target.url
            &&& r@[i].targets@[t].healthy == target.state@.healthy
            &&& r@[i].targets@[t].last_check_epoch_ms == target.state@.last_check_ms
        } by {
            assert(r@[i].targets@[t] == targets[t]);
        }
        assert(shows(r@[i], upstream));
    }
}

/// The healthy targets among some.
pub open spec fn healthy_ones(targets: Seq<TargetRuntime>) -> Seq<TargetRuntime> {
    targets.filter(|t: TargetRuntime| t.state@.healthy)
}

/// The number of healthy targets is that of the targets that are healthy.
pub proof fn lemma_healthy_among(targets: Seq<TargetRuntime>, n: int)
    requires
        0 <= n <= targets.len(),
    ensures
        healthy_among(targets, n) == healthy_ones(targets.take(n)).len(),
        healthy_among(targets, n) <= n,
    decreases n,
{
    reveal(Seq::filter);
    if n > 0 {
        lemma_healthy_among(targets, n - 1);
        assert(targets.take(n).drop_last() =~= targets.take(n - 1));
    } else {
        assert(targets.take(0) =~= Seq::<TargetRuntime>::empty());
    }
}

/// The healthy targets of every upstream are counted, upstream by upstream.
pub proof fn healthy_targets_are_counted(
    snapshot: RuntimeConfig,
    r: Vec<(String, i64)>,
    u: int,
)
    requires
        call_ensures(RuntimeConfig::healthy_counts, (&snapshot,), r),
        0 <= u < snapshot.upstreams@.len(),
        snapshot.upstreams@[u].runtime.targets@.len() <= i64::MAX,
    ensures
        r@.len() == snapshot.upstreams@.len(),
        r@[u].0 == snapshot.upstreams@[u].name,
        r@[u].1 == healthy_ones(snapshot.upstreams@[u].runtime.targets@).len(),
{
    let targets = snapshot.upstreams@[u].runtime.targets@;
    lemma_healthy_among(targets, targets.len() as int);
    assert(targets.take(targets.len() as int) =~= targets);
}

/// A listener is found by its name, the first of them, and an upstream by its name.
pub proof fn names_are_found(
    snapshot: RuntimeConfig,
    name: &str,
    listener: Option<usize>,
    upstream: Option<usize>,
    l: int,
    u: int,
)
    requires
        call_ensures(RuntimeConfig::find_listener, (&snapshot, name), listener),
        call_ensures(RuntimeConfig::find_upstream, (&snapshot, name), upstream),
    ensures
        first_listener(snapshot, l, name@) ==> (listener matches Some(i) && i == l),
        listener matches Some(i) ==> first_listener(snapshot, i as int, name@),
        0 <= u < snapshot.upstreams@.len() && snapshot.upstreams@[u].name@ == name@
            ==> upstream is Some,
        upstream matches Some(i) ==> i < snapshot.upstreams@.len()
            && snapshot.upstreams@[i as int].name@ == name@,
{
    lemma_listener_at(snapshot, snapshot.listeners@.len() as int, name@);
    assert(snapshot.has_upstream_at(u, name@) == (0 <= u < snapshot.upstreams@.len()
        && snapshot.upstreams@[u].name@ == name@));
    if let Some(i) = listener {
        if first_listener(snapshot, l, name@) {
            if i < l {
                assert(snapshot.listeners@[i as int].name@ != name@);
            }
            if l < i {
                assert(snapshot.listeners@[l].name@ != name@);
            }
        }
    }
}

} // verus!
