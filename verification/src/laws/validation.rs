//! Which configs pass validation.

use vstd::prelude::*;
use vstd::utf8::encode_utf8;
use crate::error::ValidationError;
use crate::headers::is_field_value;
use crate::laws::admission::entry_names;
use crate::laws::routing::wanted_prefix;
use crate::model::{
    GatePupConfig, HeaderOpsConfig, ListenerConfig, Protocol, RouteConfig, UpstreamConfig,
};
use crate::net::socket_of;
use crate::text::lower;
use crate::uri::{is_token, url_of};
use crate::validator::{
    access_problems, app_problems, duplicate_upstreams, first_with_key, header_name,
    health_problems, listener_problems, listener_rules_problems, listeners_problems, match_key,
    ops_problems, prefix_of, problems, proxy_problems, remove_problems, retries_problems,
    retry_condition_problems, retry_method_problems, retry_problems, route_named, route_problems,
    routes_problems, rule_problems, rules_problems, set_problems, targets_problems, tls_problems,
    upstream_named, upstreams_problems, validate,
};

verus! {

/// A text that is given and not empty.
pub open spec fn given(s: Option<String>) -> bool {
    s matches Some(t) && t@.len() > 0
}

/// A host with a `*` has it once, as its first label, with a domain behind it.
pub open spec fn sound_host(host: Seq<char>) -> bool {
    (exists|i: int| 0 <= i < host.len() && host[i] == '*') ==> {
        &&& host.len() > 2
        &&& host[0] == '*'
        &&& host[1] == '.'
        &&& forall|i: int| 2 <= i < host.len() ==> host[i] != '*'
    }
}

/// Two routes ask for the same host and the same path prefix.
pub open spec fn same_match(a: RouteConfig, b: RouteConfig) -> bool {
    &&& match (a.matcher.host, b.matcher.host) {
        (Some(x), Some(y)) => x@ == y@,
        (None, None) => true,
        _ => false,
    }
    &&& wanted_prefix(a.matcher.path_prefix) == wanted_prefix(b.matcher.path_prefix)
}

/// A route of a listener that can be served: its name and its match are its own among
/// the routes before it, it matches something, and leads to an upstream.
pub open spec fn sound_route(
    listener: ListenerConfig,
    j: int,
    upstreams: Seq<UpstreamConfig>,
) -> bool {
    let route = listener.routes@[j];
    &&& forall|k: int| 0 <= k < j ==> #[trigger] listener.routes@[k].name@ != route.name@
    &&& forall|k: int| 0 <= k < j ==> !same_match(#[trigger] listener.routes@[k], route)
    &&& given(route.matcher.host) || given(route.matcher.path_prefix)
    &&& given(route.matcher.path_prefix) ==> route.matcher.path_prefix->0@[0] == '/'
    &&& route.matcher.host matches Some(host) ==> sound_host(host@)
    &&& exists|u: int|
        0 <= u < upstreams.len() && #[trigger] upstreams[u].name@ == route.upstream@
}

/// Header rules that can be followed: names that are tokens, values that may stand in a
/// header.
pub open spec fn sound_rules(ops: HeaderOpsConfig) -> bool {
    &&& forall|i: int|
        0 <= i < ops.set@.len() ==> is_token((#[trigger] ops.set@[i]).0@) && ops.set@[i].0@.len()
            <= 65535 && is_field_value(encode_utf8(ops.set@[i].1@))
    &&& forall|i: int|
        0 <= i < ops.remove@.len() ==> is_token(#[trigger] ops.remove@[i]@)
            && ops.remove@[i]@.len() <= 65535
}

/// Every entry names a network.
pub open spec fn all_name_networks(entries: Seq<String>) -> bool {
    forall|i: int| 0 <= i < entries.len() ==> entry_names(#[trigger] entries[i]@)
}

/// The rules of a route can be followed.
pub open spec fn sound_route_rules(route: RouteConfig) -> bool {
    &&& route.headers matches Some(h) ==> sound_rules(h.request) && sound_rules(h.response)
    &&& route.ip_access matches Some(a) ==> all_name_networks(a.allow@) && all_name_networks(
        a.deny@,
    )
}

/// A listener that can be stood up: its name is its own among those before it, its
/// address parses, and it has TLS material exactly where its protocol asks for it.
pub open spec fn sound_listener(
    listeners: Seq<ListenerConfig>,
    i: int,
    upstreams: Seq<UpstreamConfig>,
) -> bool {
    let listener = listeners[i];
    &&& forall|k: int| 0 <= k < i ==> #[trigger] listeners[k].name@ != listener.name@
    &&& socket_of(listener.bind@) is Some
    &&& listener.protocol == Protocol::Http ==> listener.tls is None
    &&& listener.protocol == Protocol::Https ==> (listener.tls matches Some(tls) && tls.cert@.len()
        > 0 && tls.key@.len() > 0)
    &&& forall|j: int|
        0 <= j < listener.routes@.len() ==> #[trigger] sound_route(listener, j, upstreams)
    &&& forall|j: int|
        0 <= j < listener.routes@.len() ==> sound_route_rules(#[trigger] listener.routes@[j])
}

/// An upstream that can be used: its targets, at least one, are HTTP addresses with a
/// weight, a probe ends before the next one starts, and retries, where they are on, have
/// attempts, known methods and known conditions.
pub open spec fn sound_upstream(u: UpstreamConfig) -> bool {
    &&& u.targets@.len() > 0
    &&& forall|j: int|
        0 <= j < u.targets@.len() ==> (#[trigger] u.targets@[j]).weight > 0 && (url_of(
            u.targets@[j].url@,
        ) matches Some((scheme, has_host)) && has_host && (scheme == "http"@ || scheme
            == "https"@))
    &&& u.health_check matches Some(hc) ==> hc.timeout_ms < hc.interval_seconds * 1000
        && hc.timeout_ms < u64::MAX
    &&& u.retries matches Some(r) ==> (r.enabled ==> {
        &&& r.attempts >= 1
        &&& r.methods@.len() > 0
        &&& r.retry_on@.len() > 0
        &&& forall|j: int|
            0 <= j < r.methods@.len() ==> ({
                let m = #[trigger] r.methods@[j]@;
                m == "GET"@ || m == "HEAD"@ || m == "POST"@ || m == "PUT"@ || m == "PATCH"@ || m
                    == "DELETE"@ || m == "OPTIONS"@ || m == "TRACE"@ || m == "CONNECT"@
            })
        &&& forall|j: int|
            0 <= j < r.retry_on@.len() ==> ({
                let c = #[trigger] r.retry_on@[j]@;
                c == "connect_error"@ || c == "connect_timeout"@ || c == "upstream_5xx"@
            })
    })
}

/// A config that can be served.
pub open spec fn sound(config: GatePupConfig) -> bool {
    let level = lower(config.app.log_level@);
    &&& level == "trace"@ || level == "debug"@ || level == "info"@ || level == "warn"@ || level
        == "error"@ || level == "off"@
    &&& forall|i: int, j: int|
        0 <= i < j < config.upstreams@.len() ==> (#[trigger] config.upstreams@[i]).name@ != (
        #[trigger] config.upstreams@[j]).name@
    &&& forall|i: int|
        0 <= i < config.listeners@.len() ==> #[trigger] sound_listener(
            config.listeners@,
            i,
            config.upstreams@,
        )
    &&& forall|i: int|
        0 <= i < config.upstreams@.len() ==> sound_upstream(#[trigger] config.upstreams@[i])
    &&& config.admin matches Some(admin) ==> socket_of(admin.bind@) is Some
    &&& config.timeouts.connect_timeout_ms > 0
    &&& config.timeouts.request_timeout_ms > 0
    &&& config.limits.max_header_bytes == 0 || config.limits.max_header_bytes >= 8192
    &&& all_name_networks(config.trusted_proxies@)
}

proof fn lemma_duplicates(upstreams: Seq<UpstreamConfig>, n: int)
    requires
        0 <= n <= upstreams.len(),
    ensures
        duplicate_upstreams(upstreams, n).len() == 0 <==> forall|i: int, j: int|
            0 <= i < j < n ==> (#[trigger] upstreams[i]).name@ != (#[trigger] upstreams[j]).name@,
    decreases n,
{
    if n > 0 {
        lemma_duplicates(upstreams, n - 1);
        let last = upstreams[n - 1].name@;
        if upstream_named(upstreams, n - 1, last) {
            let i = choose|i: int| 0 <= i < n - 1 && #[trigger] upstreams[i].name@ == last;
            assert(upstreams[i].name@ == upstreams[n - 1].name@);
        } else {
            assert forall|i: int| 0 <= i < n - 1 implies (#[trigger] upstreams[i]).name@
                != upstreams[n - 1].name@ by {}
        }
    }
}

proof fn lemma_prefix(route: RouteConfig)
    ensures
        prefix_of(route.matcher) == wanted_prefix(route.matcher.path_prefix),
{
    reveal_strlit("/");
    assert("/"@ =~= seq!['/']);
}

proof fn lemma_first_with_key(routes: Seq<RouteConfig>, n: int, route: RouteConfig)
    requires
        0 <= n <= routes.len(),
    ensures
        first_with_key(routes, n, match_key(route.matcher)) is None <==> forall|k: int|
            0 <= k < n ==> !same_match(#[trigger] routes[k], route),
    decreases n,
{
    if n > 0 {
        lemma_first_with_key(routes, n - 1, route);
        lemma_prefix(routes[n - 1]);
        lemma_prefix(route);
        assert((match_key(routes[n - 1].matcher) == match_key(route.matcher)) == same_match(
            routes[n - 1],
            route,
        ));
    }
}

proof fn lemma_host(host: Seq<char>)
    ensures
        (host.contains('*') ==> crate::validator::wildcard_host(host)) == sound_host(host),
{
    if host.len() > 2 {
        let rest = host.skip(2);
        if rest.contains('*') {
            let i = choose|i: int| 0 <= i < rest.len() && rest[i] == '*';
            assert(host[i + 2] == '*');
        } else {
            assert forall|i: int| 2 <= i < host.len() implies host[i] != '*' by {
                assert(rest[i - 2] == host[i]);
            }
        }
    }
}

proof fn lemma_route(listener: ListenerConfig, j: int, upstreams: Seq<UpstreamConfig>)
    requires
        0 <= j < listener.routes@.len(),
    ensures
        route_problems(listener, j, upstreams).len() == 0 <==> sound_route(listener, j, upstreams),
{
    let route = listener.routes@[j];
    lemma_first_with_key(listener.routes@, j, route);
    if let Some(host) = route.matcher.host {
        lemma_host(host@);
    }
    if sound_route(listener, j, upstreams) {
        assert(!route_named(listener.routes@, j, route.name@));
        assert(upstream_named(upstreams, upstreams.len() as int, route.upstream@));
    }
    if route_problems(listener, j, upstreams).len() == 0 {
        assert(!route_named(listener.routes@, j, route.name@));
        assert forall|k: int| 0 <= k < j implies #[trigger] listener.routes@[k].name@
            != route.name@ by {}
        assert(upstream_named(upstreams, upstreams.len() as int, route.upstream@));
    }
}

proof fn lemma_routes(listener: ListenerConfig, n: int, upstreams: Seq<UpstreamConfig>)
    requires
        0 <= n <= listener.routes@.len(),
    ensures
        routes_problems(listener, n, upstreams).len() == 0 <==> forall|j: int|
            0 <= j < n ==> #[trigger] sound_route(listener, j, upstreams),
    decreases n,
{
    if n > 0 {
        lemma_routes(listener, n - 1, upstreams);
        lemma_route(listener, n - 1, upstreams);
    }
}

proof fn lemma_set(l: ListenerConfig, r: RouteConfig, ops: HeaderOpsConfig, n: int)
    requires
        0 <= n <= ops.set@.len(),
    ensures
        set_problems(l, r, ops, n).len() == 0 <==> forall|i: int|
            0 <= i < n ==> header_name((#[trigger] ops.set@[i]).0@) && is_field_value(
                encode_utf8(ops.set@[i].1@),
            ),
    decreases n,
{
    if n > 0 {
        lemma_set(l, r, ops, n - 1);
    }
}

proof fn lemma_remove(l: ListenerConfig, r: RouteConfig, ops: HeaderOpsConfig, n: int)
    requires
        0 <= n <= ops.remove@.len(),
    ensures
        remove_problems(l, r, ops, n).len() == 0 <==> forall|i: int|
            0 <= i < n ==> header_name(#[trigger] ops.remove@[i]@),
    decreases n,
{
    if n > 0 {
        lemma_remove(l, r, ops, n - 1);
    }
}

proof fn lemma_ops(l: ListenerConfig, r: RouteConfig, ops: HeaderOpsConfig)
    ensures
        ops_problems(l, r, ops).len() == 0 <==> sound_rules(ops),
{
    lemma_set(l, r, ops, ops.set@.len() as int);
    lemma_remove(l, r, ops, ops.remove@.len() as int);
}

proof fn lemma_access(l: ListenerConfig, r: RouteConfig, entries: Seq<String>, n: int)
    requires
        0 <= n <= entries.len(),
    ensures
        access_problems(l, r, entries, n).len() == 0 <==> forall|i: int|
            0 <= i < n ==> entry_names(#[trigger] entries[i]@),
    decreases n,
{
    if n > 0 {
        lemma_access(l, r, entries, n - 1);
    }
}

proof fn lemma_route_rules(l: ListenerConfig, r: RouteConfig)
    ensures
        rule_problems(l, r).len() == 0 <==> sound_route_rules(r),
{
    if let Some(h) = r.headers {
        lemma_ops(l, r, h.request);
        lemma_ops(l, r, h.response);
    }
    if let Some(a) = r.ip_access {
        lemma_access(l, r, a.allow@, a.allow@.len() as int);
        lemma_access(l, r, a.deny@, a.deny@.len() as int);
    }
}

proof fn lemma_listener_rules(l: ListenerConfig, n: int)
    requires
        0 <= n <= l.routes@.len(),
    ensures
        listener_rules_problems(l, n).len() == 0 <==> forall|j: int|
            0 <= j < n ==> sound_route_rules(#[trigger] l.routes@[j]),
    decreases n,
{
    if n > 0 {
        lemma_listener_rules(l, n - 1);
        lemma_route_rules(l, l.routes@[n - 1]);
    }
}

proof fn lemma_rules(listeners: Seq<ListenerConfig>, n: int)
    requires
        0 <= n <= listeners.len(),
    ensures
        rules_problems(listeners, n).len() == 0 <==> forall|i: int, j: int|
            0 <= i < n && 0 <= j < listeners[i].routes@.len() ==> sound_route_rules(
                #[trigger] listeners[i].routes@[j],
            ),
    decreases n,
{
    if n > 0 {
        lemma_rules(listeners, n - 1);
        let last = listeners[n - 1];
        lemma_listener_rules(last, last.routes@.len() as int);
        if forall|i: int, j: int|
            0 <= i < n && 0 <= j < listeners[i].routes@.len() ==> sound_route_rules(
                #[trigger] listeners[i].routes@[j],
            ) {
            assert forall|j: int| 0 <= j < last.routes@.len() implies sound_route_rules(
                #[trigger] last.routes@[j],
            ) by {
                assert(sound_route_rules(listeners[n - 1].routes@[j]));
            }
        }
    }
}

/// The part of a listener that is not its route rules.
spec fn sound_stand(listeners: Seq<ListenerConfig>, i: int, upstreams: Seq<UpstreamConfig>) -> bool {
    let listener = listeners[i];
    &&& forall|k: int| 0 <= k < i ==> #[trigger] listeners[k].name@ != listener.name@
    &&& socket_of(listener.bind@) is Some
    &&& tls_problems(listener).len() == 0
    &&& forall|j: int|
        0 <= j < listener.routes@.len() ==> #[trigger] sound_route(listener, j, upstreams)
}

proof fn lemma_listeners(listeners: Seq<ListenerConfig>, n: int, upstreams: Seq<UpstreamConfig>)
    requires
        0 <= n <= listeners.len(),
    ensures
        listeners_problems(listeners, n, upstreams).len() == 0 <==> forall|i: int|
            0 <= i < n ==> #[trigger] sound_stand(listeners, i, upstreams),
    decreases n,
{
    if n > 0 {
        lemma_listeners(listeners, n - 1, upstreams);
        let l = listeners[n - 1];
        lemma_routes(l, l.routes@.len() as int, upstreams);
        let p = listener_problems(listeners, n - 1, upstreams);
        if p.len() == 0 {
            assert(!crate::validator::listener_named(listeners, n - 1, l.name@));
            assert(sound_stand(listeners, n - 1, upstreams));
        }
        if sound_stand(listeners, n - 1, upstreams) {
            assert(!crate::validator::listener_named(listeners, n - 1, l.name@));
            assert(p.len() == 0);
        }
    }
}

proof fn lemma_targets(u: UpstreamConfig, n: int)
    requires
        0 <= n <= u.targets@.len(),
    ensures
        targets_problems(u, n).len() == 0 <==> forall|j: int|
            0 <= j < n ==> (#[trigger] u.targets@[j]).weight > 0 && (url_of(
                u.targets@[j].url@,
            ) matches Some((scheme, has_host)) && has_host && (scheme == "http"@ || scheme
                == "https"@)),
    decreases n,
{
    if n > 0 {
        lemma_targets(u, n - 1);
    }
}

proof fn lemma_methods(u: UpstreamConfig, n: int)
    requires
        u.retries is Some,
        0 <= n <= u.retries->0.methods@.len(),
    ensures
        retry_method_problems(u, u.retries->0, n).len() == 0 <==> forall|j: int|
            0 <= j < n ==> ({
                let m = #[trigger] u.retries->0.methods@[j]@;
                m == "GET"@ || m == "HEAD"@ || m == "POST"@ || m == "PUT"@ || m == "PATCH"@ || m
                    == "DELETE"@ || m == "OPTIONS"@ || m == "TRACE"@ || m == "CONNECT"@
            }),
    decreases n,
{
    if n > 0 {
        lemma_methods(u, n - 1);
    }
}

proof fn lemma_conditions(u: UpstreamConfig, n: int)
    requires
        u.retries is Some,
        0 <= n <= u.retries->0.retry_on@.len(),
    ensures
        retry_condition_problems(u, u.retries->0, n).len() == 0 <==> forall|j: int|
            0 <= j < n ==> ({
                let c = #[trigger] u.retries->0.retry_on@[j]@;
                c == "connect_error"@ || c == "connect_timeout"@ || c == "upstream_5xx"@
            }),
    decreases n,
{
    if n > 0 {
        lemma_conditions(u, n - 1);
    }
}

proof fn lemma_upstream(u: UpstreamConfig)
    ensures
        sound_upstream(u) <==> u.targets@.len() > 0 && targets_problems(
            u,
            u.targets@.len() as int,
        ).len() == 0 && health_problems(u).len() == 0 && retry_problems(u).len() == 0,
{
    lemma_targets(u, u.targets@.len() as int);
    if let Some(r) = u.retries {
        lemma_methods(u, r.methods@.len() as int);
        lemma_conditions(u, r.retry_on@.len() as int);
    }
}

proof fn lemma_upstreams(upstreams: Seq<UpstreamConfig>, n: int)
    requires
        0 <= n <= upstreams.len(),
    ensures
        upstreams_problems(upstreams, n).len() == 0 && retries_problems(upstreams, n).len() == 0
            <==> forall|i: int| 0 <= i < n ==> sound_upstream(#[trigger] upstreams[i]),
    decreases n,
{
    if n > 0 {
        lemma_upstreams(upstreams, n - 1);
        lemma_upstream(upstreams[n - 1]);
    }
}

/// Validation passes exactly the configs that can be served.
pub proof fn exactly_sound_configs_pass(
    config: GatePupConfig,
    r: Result<(), Vec<ValidationError>>,
)
    requires
        call_ensures(validate, (&config,), r),
    ensures
        r is Ok <==> sound(config),
{
    no_problems_means_sound(config);
}

/// A config has no problems exactly where it can be served.
pub proof fn no_problems_means_sound(config: GatePupConfig)
    ensures
        problems(config).len() == 0 <==> sound(config),
{
    let ups = config.upstreams@;
    let ls = config.listeners@;
    lemma_duplicates(ups, ups.len() as int);
    lemma_listeners(ls, ls.len() as int, ups);
    lemma_rules(ls, ls.len() as int);
    lemma_upstreams(ups, ups.len() as int);
    lemma_proxies(config.trusted_proxies@, config.trusted_proxies@.len() as int);
    let stands = forall|i: int| 0 <= i < ls.len() ==> #[trigger] sound_stand(ls, i, ups);
    let ruled = forall|i: int, j: int|
        0 <= i < ls.len() && 0 <= j < ls[i].routes@.len() ==> sound_route_rules(
            #[trigger] ls[i].routes@[j],
        );
    if stands && ruled {
        assert forall|i: int| 0 <= i < ls.len() implies #[trigger] sound_listener(ls, i, ups) by {
            assert(sound_stand(ls, i, ups));
            assert forall|j: int| 0 <= j < ls[i].routes@.len() implies sound_route_rules(
                #[trigger] ls[i].routes@[j],
            ) by {}
        }
    }
    if forall|i: int| 0 <= i < ls.len() ==> #[trigger] sound_listener(ls, i, ups) {
        assert forall|i: int| 0 <= i < ls.len() implies #[trigger] sound_stand(ls, i, ups) by {
            assert(sound_listener(ls, i, ups));
        }
        assert forall|i: int, j: int|
            0 <= i < ls.len() && 0 <= j < ls[i].routes@.len() implies sound_route_rules(
            #[trigger] ls[i].routes@[j],
        ) by {
            assert(sound_listener(ls, i, ups));
        }
    }
    assert(app_problems(config.app).len() == 0 <==> ({
        let level = lower(config.app.log_level@);
        level == "trace"@ || level == "debug"@ || level == "info"@ || level == "warn"@ || level
            == "error"@ || level == "off"@
    }));
}

proof fn lemma_proxies(entries: Seq<String>, n: int)
    requires
        0 <= n <= entries.len(),
    ensures
        proxy_problems(entries, n).len() == 0 <==> forall|i: int|
            0 <= i < n ==> entry_names(#[trigger] entries[i]@),
    decreases n,
{
    if n > 0 {
        lemma_proxies(entries, n - 1);
    }
}

} // verus!
