//! What validation tells of a config: every problem it has, and no other.

use vstd::prelude::*;
use vstd::utf8::encode_utf8;
use crate::error::ValidationError;
use crate::headers::is_field_value;
use crate::laws::admission::entry_names;
use crate::laws::routing::wanted_prefix;
use crate::laws::validation::{given, same_match, sound_host};
use crate::model::{
    GatePupConfig, HeaderOpsConfig, ListenerConfig, Protocol, RetryConfig, RouteConfig,
    UpstreamConfig,
};
use crate::net::socket_of;
use crate::text::lower;
use crate::uri::{is_token, url_of};
use crate::validator::{
    access_problems, admin_problems, app_problems, duplicate_upstreams, first_with_key,
    health_problems, limits_problems, listener_problems, listener_rules_problems,
    listeners_problems, match_key, ops_problems, prefix_of, problems, proxy_problems,
    remove_problems, retries_problems, retry_condition_problems, retry_method_problems,
    retry_problems, route_problems, routes_problems, rule_problems, rules_problems, set_problems,
    targets_problems, timeout_problems, tls_problems, upstream_named, upstreams_problems, validate,
    wildcard_host,
};

verus! {

/// The problem is one of route `j` of a listener.
pub open spec fn route_flaw(
    l: ListenerConfig,
    j: int,
    upstreams: Seq<UpstreamConfig>,
    e: ValidationError,
) -> bool {
    let route = l.routes@[j];
    match e {
        ValidationError::DuplicateRouteName { listener, route: name } => listener == l.name && name
            == route.name && exists|k: int|
            0 <= k < j && #[trigger] l.routes@[k].name@ == route.name@,
        ValidationError::EmptyRouteMatch { listener, route: name } => listener == l.name && name
            == route.name && !given(route.matcher.host) && !given(route.matcher.path_prefix),
        ValidationError::InvalidPathPrefix { listener, route: name, prefix } => listener == l.name
            && name == route.name && route.matcher.path_prefix == Some(prefix) && prefix@.len() > 0
            && prefix@[0] != '/',
        ValidationError::InvalidWildcardHost { listener, route: name, host } => listener == l.name
            && name == route.name && route.matcher.host == Some(host) && !sound_host(host@),
        ValidationError::ConflictingRoutes { listener, first, second } => listener == l.name
            && second == route.name && exists|k: int|
            {
                &&& 0 <= k < j
                &&& same_match(#[trigger] l.routes@[k], route)
                &&& first == l.routes@[k].name
                &&& forall|m: int| 0 <= m < k ==> !same_match(#[trigger] l.routes@[m], route)
            },
        ValidationError::UnknownUpstream { route: name, upstream } => name == route.name && upstream
            == route.upstream && forall|u: int|
            0 <= u < upstreams.len() ==> (#[trigger] upstreams[u]).name@ != route.upstream@,
        _ => false,
    }
}

/// The problem is one of a listener, or of one of its routes.
pub open spec fn listener_flaw(
    listeners: Seq<ListenerConfig>,
    i: int,
    upstreams: Seq<UpstreamConfig>,
    e: ValidationError,
) -> bool {
    let l = listeners[i];
    match e {
        ValidationError::DuplicateListenerName(name) => name == l.name && exists|k: int|
            0 <= k < i && #[trigger] listeners[k].name@ == l.name@,
        ValidationError::InvalidBind { listener, bind } => listener == l.name && bind == l.bind
            && socket_of(l.bind@) is None,
        ValidationError::MissingTls { listener } => listener == l.name && l.protocol
            == Protocol::Https && l.tls is None,
        ValidationError::UnexpectedTls { listener } => listener == l.name && l.protocol
            == Protocol::Http && l.tls is Some,
        ValidationError::EmptyTlsPath { listener, field } => listener == l.name && l.protocol
            == Protocol::Https && (l.tls matches Some(tls) && (field == "cert" && tls.cert@.len()
            == 0 || field == "key" && tls.key@.len() == 0)),
        _ => exists|j: int|
            0 <= j < l.routes@.len() && #[trigger] route_flaw(l, j, upstreams, e),
    }
}

/// The name may not stand for a header.
pub open spec fn no_header_name(name: Seq<char>) -> bool {
    !is_token(name) || name.len() > 65535
}

/// The problem is one of the header rules of a route.
pub open spec fn header_flaw(
    l: ListenerConfig,
    route: RouteConfig,
    ops: HeaderOpsConfig,
    e: ValidationError,
) -> bool {
    match e {
        ValidationError::InvalidHeaderName { listener, route: r, name } => listener == l.name && r
            == route.name && no_header_name(name@) && ((exists|i: int|
            0 <= i < ops.set@.len() && (#[trigger] ops.set@[i]).0 == name) || (exists|i: int|
            0 <= i < ops.remove@.len() && #[trigger] ops.remove@[i] == name)),
        ValidationError::InvalidHeaderValue { listener, route: r, name } => listener == l.name && r
            == route.name && exists|i: int|
            0 <= i < ops.set@.len() && (#[trigger] ops.set@[i]).0 == name && !is_field_value(
                encode_utf8(ops.set@[i].1@),
            ),
        _ => false,
    }
}

/// The problem is an entry of a list that names no network.
pub open spec fn entry_flaw(
    l: ListenerConfig,
    route: RouteConfig,
    entries: Seq<String>,
    e: ValidationError,
) -> bool {
    e matches ValidationError::InvalidIpAccess { listener, route: r, value } && listener == l.name
        && r == route.name && !entry_names(value@) && exists|i: int|
        0 <= i < entries.len() && #[trigger] entries[i] == value
}

/// The problem is one of the rules of a route.
pub open spec fn rule_flaw(l: ListenerConfig, route: RouteConfig, e: ValidationError) -> bool {
    ||| route.headers matches Some(h) && (header_flaw(l, route, h.request, e) || header_flaw(
        l,
        route,
        h.response,
        e,
    ))
    ||| route.ip_access matches Some(a) && (entry_flaw(l, route, a.allow@, e) || entry_flaw(
        l,
        route,
        a.deny@,
        e,
    ))
}

/// The problem is one of the rules of a listener's routes.
pub open spec fn rules_flaw(l: ListenerConfig, e: ValidationError) -> bool {
    exists|j: int| 0 <= j < l.routes@.len() && rule_flaw(l, #[trigger] l.routes@[j], e)
}

/// No method that a request may be sent again with.
pub open spec fn no_method(m: Seq<char>) -> bool {
    m != "GET"@ && m != "HEAD"@ && m != "POST"@ && m != "PUT"@ && m != "PATCH"@ && m != "DELETE"@
        && m != "OPTIONS"@ && m != "TRACE"@ && m != "CONNECT"@
}

/// No reason to send a request again.
pub open spec fn no_condition(c: Seq<char>) -> bool {
    c != "connect_error"@ && c != "connect_timeout"@ && c != "upstream_5xx"@
}

/// No address of an HTTP target.
pub open spec fn no_target(url: Seq<char>) -> bool {
    !(url_of(url) matches Some((scheme, has_host)) && has_host && (scheme == "http"@ || scheme
        == "https"@))
}

/// The problem is one of an upstream.
pub open spec fn upstream_flaw(u: UpstreamConfig, e: ValidationError) -> bool {
    match e {
        ValidationError::EmptyTargets { upstream } => upstream == u.name && u.targets@.len() == 0,
        ValidationError::InvalidTargetUrl { upstream, url } => upstream == u.name && no_target(url@)
            && exists|j: int| 0 <= j < u.targets@.len() && (#[trigger] u.targets@[j]).url == url,
        ValidationError::ZeroWeight { upstream, url } => upstream == u.name && exists|j: int|
            0 <= j < u.targets@.len() && (#[trigger] u.targets@[j]).url == url
                && u.targets@[j].weight == 0,
        ValidationError::HealthTimeoutNotLessThanInterval { upstream, timeout_ms, interval_ms } =>
            upstream == u.name && (u.health_check matches Some(hc) && hc.timeout_ms == timeout_ms
                && timeout_ms >= interval_ms && interval_ms == (if hc.interval_seconds * 1000
                <= u64::MAX {
                hc.interval_seconds * 1000
            } else {
                u64::MAX as int
            })),
        ValidationError::InvalidRetryAttempts { upstream } => upstream == u.name && (
        u.retries matches Some(r) && r.enabled && r.attempts == 0),
        ValidationError::EmptyRetryList { upstream, field } => upstream == u.name && (
        u.retries matches Some(r) && r.enabled && (field == "methods" && r.methods@.len() == 0
            || field == "retryOn" && r.retry_on@.len() == 0)),
        ValidationError::InvalidRetryMethod { upstream, method } => upstream == u.name && (
        u.retries matches Some(r) && r.enabled && no_method(method@) && exists|j: int|
            0 <= j < r.methods@.len() && #[trigger] r.methods@[j] == method),
        ValidationError::InvalidRetryOn { upstream, value } => upstream == u.name && (
        u.retries matches Some(r) && r.enabled && no_condition(value@) && exists|j: int|
            0 <= j < r.retry_on@.len() && #[trigger] r.retry_on@[j] == value),
        _ => false,
    }
}

/// The problem is one of the config as a whole.
pub open spec fn general_flaw(config: GatePupConfig, e: ValidationError) -> bool {
    match e {
        ValidationError::InvalidLogLevel { value } => value == config.app.log_level && ({
            let level = lower(value@);
            level != "trace"@ && level != "debug"@ && level != "info"@ && level != "warn"@ && level
                != "error"@ && level != "off"@
        }),
        ValidationError::DuplicateUpstreamName(name) => exists|i: int, k: int|
            0 <= k < i < config.upstreams@.len() && (#[trigger] config.upstreams@[i]).name == name
                && (#[trigger] config.upstreams@[k]).name@ == name@,
        ValidationError::InvalidAdminBind { bind } => config.admin matches Some(admin)
            && admin.bind == bind && socket_of(bind@) is None,
        ValidationError::ZeroTimeout { field } => field == "connectTimeoutMs"
            && config.timeouts.connect_timeout_ms == 0 || field == "requestTimeoutMs"
            && config.timeouts.request_timeout_ms == 0,
        ValidationError::MaxHeaderBytesTooSmall { value } => value
            == config.limits.max_header_bytes && 0 < value < 8192,
        ValidationError::InvalidTrustedProxy { value } => !entry_names(value@) && exists|i: int|
            0 <= i < config.trusted_proxies@.len() && #[trigger] config.trusted_proxies@[i]
                == value,
        _ => false,
    }
}

/// The problem is one that the config has.
pub open spec fn flaw(config: GatePupConfig, e: ValidationError) -> bool {
    ||| general_flaw(config, e)
    ||| exists|i: int|
        0 <= i < config.listeners@.len() && #[trigger] listener_flaw(
            config.listeners@,
            i,
            config.upstreams@,
            e,
        )
    ||| exists|i: int|
        0 <= i < config.listeners@.len() && rules_flaw(#[trigger] config.listeners@[i], e)
    ||| exists|i: int|
        0 <= i < config.upstreams@.len() && upstream_flaw(#[trigger] config.upstreams@[i], e)
}

/// A problem that is there under a condition.
spec fn if_so(condition: bool, problem: ValidationError) -> Seq<ValidationError> {
    crate::validator::when(condition, problem)
}

/// What stands in one list behind another stands in one of them.
proof fn lemma_sum(a: Seq<ValidationError>, b: Seq<ValidationError>, e: ValidationError)
    ensures
        (a + b).contains(e) == (a.contains(e) || b.contains(e)),
{
    let s = a + b;
    if a.contains(e) {
        let i = choose|i: int| 0 <= i < a.len() && a[i] == e;
        assert(s[i] == e);
    }
    if b.contains(e) {
        let i = choose|i: int| 0 <= i < b.len() && b[i] == e;
        assert(s[a.len() + i] == e);
    }
    if s.contains(e) {
        let i = choose|i: int| 0 <= i < s.len() && s[i] == e;
        if i < a.len() {
            assert(a[i] == e);
        } else {
            assert(b[i - a.len()] == e);
        }
    }
}

proof fn lemma_when(condition: bool, problem: ValidationError, e: ValidationError)
    ensures
        if_so(condition, problem).contains(e) == (condition && e == problem),
{
    if condition {
        assert(if_so(condition, problem)[0] == problem);
    }
}

/// A list, then what stands there where a condition holds.
proof fn lemma_and_when(
    a: Seq<ValidationError>,
    condition: bool,
    problem: ValidationError,
    e: ValidationError,
)
    ensures
        (a + if_so(condition, problem)).contains(e) == (a.contains(e) || condition && e == problem),
{
    lemma_sum(a, if_so(condition, problem), e);
    lemma_when(condition, problem, e);
}

proof fn lemma_duplicate_upstreams(config: GatePupConfig, n: int, e: ValidationError)
    requires
        0 <= n <= config.upstreams@.len(),
    ensures
        duplicate_upstreams(config.upstreams@, n).contains(e) <==> (
        e matches ValidationError::DuplicateUpstreamName(name) && exists|i: int, k: int|
            0 <= k < i < n && (#[trigger] config.upstreams@[i]).name == name && (
            #[trigger] config.upstreams@[k]).name@ == name@),
    decreases n,
{
    let ups = config.upstreams@;
    if n > 0 {
        lemma_duplicate_upstreams(config, n - 1, e);
        let dup = upstream_named(ups, n - 1, ups[n - 1].name@);
        let p = ValidationError::DuplicateUpstreamName(ups[n - 1].name);
        lemma_and_when(duplicate_upstreams(ups, n - 1), dup, p, e);
        if dup && e == p {
            let k = choose|k: int| 0 <= k < n - 1 && #[trigger] ups[k].name@ == ups[n - 1].name@;
            assert(ups[n - 1].name == ups[n - 1].name && ups[k].name@ == ups[n - 1].name@);
        }
    }
}

proof fn lemma_first(routes: Seq<RouteConfig>, n: int, route: RouteConfig)
    requires
        0 <= n <= routes.len(),
    ensures
        match first_with_key(routes, n, match_key(route.matcher)) {
            Some(k) => 0 <= k < n && same_match(routes[k], route) && forall|m: int|
                0 <= m < k ==> !same_match(#[trigger] routes[m], route),
            None => forall|m: int| 0 <= m < n ==> !same_match(#[trigger] routes[m], route),
        },
    decreases n,
{
    reveal_strlit("/");
    assert("/"@ =~= seq!['/']);
    if n > 0 {
        lemma_first(routes, n - 1, route);
        let last = routes[n - 1];
        assert(prefix_of(last.matcher) == wanted_prefix(last.matcher.path_prefix));
        assert(prefix_of(route.matcher) == wanted_prefix(route.matcher.path_prefix));
        assert((match_key(last.matcher) == match_key(route.matcher)) == same_match(last, route));
    }
}

proof fn lemma_route_flaw(
    l: ListenerConfig,
    j: int,
    ups: Seq<UpstreamConfig>,
    e: ValidationError,
)
    requires
        0 <= j < l.routes@.len(),
    ensures
        route_problems(l, j, ups).contains(e) == route_flaw(l, j, ups, e),
{
    let routes = l.routes@;
    let route = routes[j];
    let prefix = route.matcher.path_prefix;
    let host = route.matcher.host;
    let named = crate::validator::route_named(routes, j, route.name@);
    let p1 = ValidationError::DuplicateRouteName { listener: l.name, route: route.name };
    let w1 = if_so(named, p1);
    let c2 = crate::model::blank(host) && crate::model::blank(prefix);
    let p2 = ValidationError::EmptyRouteMatch { listener: l.name, route: route.name };
    let c3 = !crate::model::blank(prefix) && prefix->0@[0] != '/';
    let p3 = ValidationError::InvalidPathPrefix {
        listener: l.name,
        route: route.name,
        prefix: prefix->0,
    };
    let c4 = host is Some && host->0@.contains('*') && !wildcard_host(host->0@);
    let p4 = ValidationError::InvalidWildcardHost {
        listener: l.name,
        route: route.name,
        host: host->0,
    };
    let found = first_with_key(routes, j, match_key(route.matcher));
    let s5 = match found {
        Some(k) => seq![
            ValidationError::ConflictingRoutes {
                listener: l.name,
                first: routes[k].name,
                second: route.name,
            },
        ],
        None => Seq::empty(),
    };
    let c6 = !upstream_named(ups, ups.len() as int, route.upstream@);
    let p6 = ValidationError::UnknownUpstream { route: route.name, upstream: route.upstream };
    lemma_when(named, p1, e);
    lemma_and_when(w1, c2, p2, e);
    lemma_and_when(w1 + if_so(c2, p2), c3, p3, e);
    lemma_and_when(w1 + if_so(c2, p2) + if_so(c3, p3), c4, p4, e);
    let front = w1 + if_so(c2, p2) + if_so(c3, p3) + if_so(c4, p4);
    lemma_sum(front, s5, e);
    lemma_and_when(front + s5, c6, p6, e);
    assert(route_problems(l, j, ups) == front + s5 + if_so(c6, p6));
    if let Some(h) = host {
        lemma_host(h@);
    }
    lemma_first(routes, j, route);
    if let Some(k) = found {
        assert(s5[0] == ValidationError::ConflictingRoutes {
            listener: l.name,
            first: routes[k].name,
            second: route.name,
        });
        assert(s5.contains(e) == (e == s5[0]));
        assert forall|m: int|
            0 <= m < j && same_match(#[trigger] routes[m], route) && (forall|q: int|
                0 <= q < m ==> !same_match(#[trigger] routes[q], route)) implies m == k by {
            if m < k {
                assert(!same_match(routes[m], route));
            }
            if k < m {
                assert(!same_match(routes[k], route));
            }
        }
    }
    assert(c6 == forall|u: int| 0 <= u < ups.len() ==> (#[trigger] ups[u]).name@ != route.upstream@);
}

proof fn lemma_host(host: Seq<char>)
    ensures
        (host.contains('*') && !wildcard_host(host)) == !sound_host(host),
{
    if host.len() > 2 {
        let rest = host.skip(2);
        if rest.contains('*') {
            let i = choose|i: int| 0 <= i < rest.len() && rest[i] == '*';
            assert(host[i + 2] == '*');
        } else {
            assert forall|i: int| 2 <= i < host.len() implies host[i] != '*' by {
                assert(rest[i - 2] == host[i]);
            }
        }
    }
}

proof fn lemma_routes_flaw(
    l: ListenerConfig,
    n: int,
    ups: Seq<UpstreamConfig>,
    e: ValidationError,
)
    requires
        0 <= n <= l.routes@.len(),
    ensures
        routes_problems(l, n, ups).contains(e) <==> exists|j: int|
            0 <= j < n && #[trigger] route_flaw(l, j, ups, e),
    decreases n,
{
    if n > 0 {
        lemma_routes_flaw(l, n - 1, ups, e);
        lemma_route_flaw(l, n - 1, ups, e);
        lemma_sum(routes_problems(l, n - 1, ups), route_problems(l, n - 1, ups), e);
    }
}

proof fn lemma_listener_flaw(
    listeners: Seq<ListenerConfig>,
    i: int,
    ups: Seq<UpstreamConfig>,
    e: ValidationError,
)
    requires
        0 <= i < listeners.len(),
    ensures
        listener_problems(listeners, i, ups).contains(e) == listener_flaw(listeners, i, ups, e),
{
    let l = listeners[i];
    let c1 = crate::validator::listener_named(listeners, i, l.name@);
    let p1 = ValidationError::DuplicateListenerName(l.name);
    let c2 = socket_of(l.bind@) is None;
    let p2 = ValidationError::InvalidBind { listener: l.name, bind: l.bind };
    lemma_when(c1, p1, e);
    lemma_and_when(if_so(c1, p1), c2, p2, e);
    let front = if_so(c1, p1) + if_so(c2, p2);
    lemma_sum(front, tls_problems(l), e);
    let routes = routes_problems(l, l.routes@.len() as int, ups);
    lemma_sum(front + tls_problems(l), routes, e);
    lemma_routes_flaw(l, l.routes@.len() as int, ups, e);
    assert(listener_problems(listeners, i, ups) == front + tls_problems(l) + routes);
    match (l.protocol, l.tls) {
        (Protocol::Https, None) => {
            assert(tls_problems(l)[0] == ValidationError::MissingTls { listener: l.name });
        },
        (Protocol::Http, Some(_)) => {
            assert(tls_problems(l)[0] == ValidationError::UnexpectedTls { listener: l.name });
        },
        (Protocol::Https, Some(tls)) => {
            let cert = ValidationError::EmptyTlsPath { listener: l.name, field: "cert" };
            let key = ValidationError::EmptyTlsPath { listener: l.name, field: "key" };
            lemma_when(tls.cert@.len() == 0, cert, e);
            lemma_and_when(if_so(tls.cert@.len() == 0, cert), tls.key@.len() == 0, key, e);
        },
        (Protocol::Http, None) => {},
    }
}

proof fn lemma_listeners_flaw(
    listeners: Seq<ListenerConfig>,
    n: int,
    ups: Seq<UpstreamConfig>,
    e: ValidationError,
)
    requires
        0 <= n <= listeners.len(),
    ensures
        listeners_problems(listeners, n, ups).contains(e) <==> exists|i: int|
            0 <= i < n && #[trigger] listener_flaw(listeners, i, ups, e),
    decreases n,
{
    if n > 0 {
        lemma_listeners_flaw(listeners, n - 1, ups, e);
        lemma_listener_flaw(listeners, n - 1, ups, e);
        lemma_sum(
            listeners_problems(listeners, n - 1, ups),
            listener_problems(listeners, n - 1, ups),
            e,
        );
    }
}

proof fn lemma_set_flaw(
    l: ListenerConfig,
    r: RouteConfig,
    ops: HeaderOpsConfig,
    n: int,
    e: ValidationError,
)
    requires
        0 <= n <= ops.set@.len(),
    ensures
        set_problems(l, r, ops, n).contains(e) <==> exists|i: int|
            0 <= i < n && ({
                let entry = #[trigger] ops.set@[i];
                ||| no_header_name(entry.0@) && e == ValidationError::InvalidHeaderName {
                    listener: l.name,
                    route: r.name,
                    name: entry.0,
                }
                ||| !is_field_value(encode_utf8(entry.1@))
                    && e == ValidationError::InvalidHeaderValue {
                    listener: l.name,
                    route: r.name,
                    name: entry.0,
                }
            }),
    decreases n,
{
    if n > 0 {
        lemma_set_flaw(l, r, ops, n - 1, e);
        let entry = ops.set@[n - 1];
        let c1 = no_header_name(entry.0@);
        let p1 = ValidationError::InvalidHeaderName {
            listener: l.name,
            route: r.name,
            name: entry.0,
        };
        let c2 = !is_field_value(encode_utf8(entry.1@));
        let p2 = ValidationError::InvalidHeaderValue {
            listener: l.name,
            route: r.name,
            name: entry.0,
        };
        let front = set_problems(l, r, ops, n - 1);
        lemma_and_when(front, c1, p1, e);
        lemma_and_when(front + if_so(c1, p1), c2, p2, e);
        assert(c1 == !crate::validator::header_name(entry.0@));
    }
}

proof fn lemma_remove_flaw(
    l: ListenerConfig,
    r: RouteConfig,
    ops: HeaderOpsConfig,
    n: int,
    e: ValidationError,
)
    requires
        0 <= n <= ops.remove@.len(),
    ensures
        remove_problems(l, r, ops, n).contains(e) <==> exists|i: int|
            0 <= i < n && no_header_name((#[trigger] ops.remove@[i])@) && e
                == (ValidationError::InvalidHeaderName {
                listener: l.name,
                route: r.name,
                name: ops.remove@[i],
            }),
    decreases n,
{
    if n > 0 {
        lemma_remove_flaw(l, r, ops, n - 1, e);
        let name = ops.remove@[n - 1];
        let p = ValidationError::InvalidHeaderName { listener: l.name, route: r.name, name };
        lemma_and_when(remove_problems(l, r, ops, n - 1), no_header_name(name@), p, e);
        assert(no_header_name(name@) == !crate::validator::header_name(name@));
    }
}

proof fn lemma_header_flaw(
    l: ListenerConfig,
    r: RouteConfig,
    ops: HeaderOpsConfig,
    e: ValidationError,
)
    ensures
        ops_problems(l, r, ops).contains(e) == header_flaw(l, r, ops, e),
{
    let n = ops.set@.len() as int;
    let m = ops.remove@.len() as int;
    lemma_set_flaw(l, r, ops, n, e);
    lemma_remove_flaw(l, r, ops, m, e);
    lemma_sum(set_problems(l, r, ops, n), remove_problems(l, r, ops, m), e);
}

proof fn lemma_entry_flaw(
    l: ListenerConfig,
    r: RouteConfig,
    entries: Seq<String>,
    n: int,
    e: ValidationError,
)
    requires
        0 <= n <= entries.len(),
    ensures
        access_problems(l, r, entries, n).contains(e) <==> exists|i: int|
            0 <= i < n && !entry_names((#[trigger] entries[i])@) && e
                == (ValidationError::InvalidIpAccess {
                listener: l.name,
                route: r.name,
                value: entries[i],
            }),
    decreases n,
{
    if n > 0 {
        lemma_entry_flaw(l, r, entries, n - 1, e);
        let value = entries[n - 1];
        let p = ValidationError::InvalidIpAccess { listener: l.name, route: r.name, value };
        lemma_and_when(access_problems(l, r, entries, n - 1), !entry_names(value@), p, e);
    }
}

proof fn lemma_rule_flaw(l: ListenerConfig, r: RouteConfig, e: ValidationError)
    ensures
        rule_problems(l, r).contains(e) == rule_flaw(l, r, e),
{
    let none = Seq::<ValidationError>::empty();
    let a = match r.headers {
        Some(h) => ops_problems(l, r, h.request) + ops_problems(l, r, h.response),
        None => none,
    };
    let b = match r.ip_access {
        Some(x) => access_problems(l, r, x.allow@, x.allow@.len() as int) + access_problems(
            l,
            r,
            x.deny@,
            x.deny@.len() as int,
        ),
        None => none,
    };
    lemma_sum(a, b, e);
    if let Some(h) = r.headers {
        lemma_header_flaw(l, r, h.request, e);
        lemma_header_flaw(l, r, h.response, e);
        lemma_sum(ops_problems(l, r, h.request), ops_problems(l, r, h.response), e);
    }
    if let Some(x) = r.ip_access {
        lemma_entry_flaw(l, r, x.allow@, x.allow@.len() as int, e);
        lemma_entry_flaw(l, r, x.deny@, x.deny@.len() as int, e);
        lemma_sum(
            access_problems(l, r, x.allow@, x.allow@.len() as int),
            access_problems(l, r, x.deny@, x.deny@.len() as int),
            e,
        );
    }
}

proof fn lemma_listener_rules_flaw(l: ListenerConfig, n: int, e: ValidationError)
    requires
        0 <= n <= l.routes@.len(),
    ensures
        listener_rules_problems(l, n).contains(e) <==> exists|j: int|
            0 <= j < n && rule_flaw(l, #[trigger] l.routes@[j], e),
    decreases n,
{
    if n > 0 {
        lemma_listener_rules_flaw(l, n - 1, e);
        lemma_rule_flaw(l, l.routes@[n - 1], e);
        lemma_sum(listener_rules_problems(l, n - 1), rule_problems(l, l.routes@[n - 1]), e);
    }
}

proof fn lemma_rules_flaw(listeners: Seq<ListenerConfig>, n: int, e: ValidationError)
    requires
        0 <= n <= listeners.len(),
    ensures
        rules_problems(listeners, n).contains(e) <==> exists|i: int|
            0 <= i < n && rules_flaw(#[trigger] listeners[i], e),
    decreases n,
{
    if n > 0 {
        lemma_rules_flaw(listeners, n - 1, e);
        let l = listeners[n - 1];
        lemma_listener_rules_flaw(l, l.routes@.len() as int, e);
        lemma_sum(
            rules_problems(listeners, n - 1),
            listener_rules_problems(l, l.routes@.len() as int),
            e,
        );
        assert(listener_rules_problems(l, l.routes@.len() as int).contains(e) == rules_flaw(l, e));
    }
}

proof fn lemma_targets_flaw(u: UpstreamConfig, n: int, e: ValidationError)
    requires
        0 <= n <= u.targets@.len(),
    ensures
        targets_problems(u, n).contains(e) <==> exists|j: int|
            0 <= j < n && ({
                let t = #[trigger] u.targets@[j];
                ||| no_target(t.url@) && e == ValidationError::InvalidTargetUrl {
                    upstream: u.name,
                    url: t.url,
                }
                ||| t.weight == 0 && e == ValidationError::ZeroWeight {
                    upstream: u.name,
                    url: t.url,
                }
            }),
    decreases n,
{
    if n > 0 {
        lemma_targets_flaw(u, n - 1, e);
        let t = u.targets@[n - 1];
        let p1 = ValidationError::InvalidTargetUrl { upstream: u.name, url: t.url };
        let p2 = ValidationError::ZeroWeight { upstream: u.name, url: t.url };
        let front = targets_problems(u, n - 1);
        lemma_and_when(front, no_target(t.url@), p1, e);
        lemma_and_when(front + if_so(no_target(t.url@), p1), t.weight == 0, p2, e);
        assert(no_target(t.url@) == !crate::uri::http_url(url_of(t.url@)));
    }
}

proof fn lemma_methods_flaw(u: UpstreamConfig, r: RetryConfig, n: int, e: ValidationError)
    requires
        0 <= n <= r.methods@.len(),
    ensures
        retry_method_problems(u, r, n).contains(e) <==> exists|j: int|
            0 <= j < n && no_method((#[trigger] r.methods@[j])@) && e
                == (ValidationError::InvalidRetryMethod {
                upstream: u.name,
                method: r.methods@[j],
            }),
    decreases n,
{
    if n > 0 {
        lemma_methods_flaw(u, r, n - 1, e);
        let method = r.methods@[n - 1];
        let p = ValidationError::InvalidRetryMethod { upstream: u.name, method };
        lemma_and_when(retry_method_problems(u, r, n - 1), no_method(method@), p, e);
        assert(no_method(method@) == !crate::validator::retry_method(method@));
    }
}

proof fn lemma_conditions_flaw(u: UpstreamConfig, r: RetryConfig, n: int, e: ValidationError)
    requires
        0 <= n <= r.retry_on@.len(),
    ensures
        retry_condition_problems(u, r, n).contains(e) <==> exists|j: int|
            0 <= j < n && no_condition((#[trigger] r.retry_on@[j])@) && e
                == (ValidationError::InvalidRetryOn { upstream: u.name, value: r.retry_on@[j] }),
    decreases n,
{
    if n > 0 {
        lemma_conditions_flaw(u, r, n - 1, e);
        let value = r.retry_on@[n - 1];
        let p = ValidationError::InvalidRetryOn { upstream: u.name, value };
        lemma_and_when(retry_condition_problems(u, r, n - 1), no_condition(value@), p, e);
        assert(no_condition(value@) == !crate::validator::retry_condition(value@));
    }
}

/// The problems of an upstream but for its retries.
spec fn plain_problems(u: UpstreamConfig) -> Seq<ValidationError> {
    if_so(u.targets@.len() == 0, ValidationError::EmptyTargets { upstream: u.name })
        + targets_problems(u, u.targets@.len() as int) + health_problems(u)
}

proof fn lemma_retry_flaw(u: UpstreamConfig, e: ValidationError)
    ensures
        retry_problems(u).contains(e) <==> upstream_flaw(u, e) && (e is InvalidRetryAttempts
            || e is EmptyRetryList || e is InvalidRetryMethod || e is InvalidRetryOn),
{
    if let Some(r) = u.retries {
        if r.enabled {
            let p1 = ValidationError::InvalidRetryAttempts { upstream: u.name };
            let p2 = ValidationError::EmptyRetryList { upstream: u.name, field: "methods" };
            let p3 = ValidationError::EmptyRetryList { upstream: u.name, field: "retryOn" };
            let w1 = if_so(r.attempts < 1, p1);
            let w2 = if_so(r.methods@.len() == 0, p2);
            let w3 = if_so(r.retry_on@.len() == 0, p3);
            let m = retry_method_problems(u, r, r.methods@.len() as int);
            let c = retry_condition_problems(u, r, r.retry_on@.len() as int);
            lemma_when(r.attempts < 1, p1, e);
            lemma_and_when(w1, r.methods@.len() == 0, p2, e);
            lemma_and_when(w1 + w2, r.retry_on@.len() == 0, p3, e);
            lemma_sum(w1 + w2 + w3, m, e);
            lemma_sum(w1 + w2 + w3 + m, c, e);
            lemma_methods_flaw(u, r, r.methods@.len() as int, e);
            lemma_conditions_flaw(u, r, r.retry_on@.len() as int, e);
            assert(retry_problems(u) == w1 + w2 + w3 + m + c);
        }
    }
}

proof fn lemma_plain_flaw(u: UpstreamConfig, e: ValidationError)
    ensures
        plain_problems(u).contains(e) <==> upstream_flaw(u, e) && (e is EmptyTargets
            || e is InvalidTargetUrl || e is ZeroWeight || e is HealthTimeoutNotLessThanInterval),
{
    let p = ValidationError::EmptyTargets { upstream: u.name };
    let w = if_so(u.targets@.len() == 0, p);
    let t = targets_problems(u, u.targets@.len() as int);
    lemma_when(u.targets@.len() == 0, p, e);
    lemma_sum(w, t, e);
    lemma_sum(w + t, health_problems(u), e);
    lemma_targets_flaw(u, u.targets@.len() as int, e);
    if let Some(hc) = u.health_check {
        let q = ValidationError::HealthTimeoutNotLessThanInterval {
            upstream: u.name,
            timeout_ms: hc.timeout_ms,
            interval_ms: crate::validator::interval_ms(hc),
        };
        lemma_when(hc.timeout_ms >= crate::validator::interval_ms(hc), q, e);
    }
}

proof fn lemma_upstreams_flaw(ups: Seq<UpstreamConfig>, n: int, e: ValidationError)
    requires
        0 <= n <= ups.len(),
    ensures
        upstreams_problems(ups, n).contains(e) || retries_problems(ups, n).contains(e)
            <==> exists|i: int| 0 <= i < n && upstream_flaw(#[trigger] ups[i], e),
    decreases n,
{
    if n > 0 {
        lemma_upstreams_flaw(ups, n - 1, e);
        let u = ups[n - 1];
        lemma_plain_flaw(u, e);
        lemma_retry_flaw(u, e);
        let front = upstreams_problems(ups, n - 1);
        lemma_sum(front, plain_problems(u), e);
        assert(upstreams_problems(ups, n) =~= front + plain_problems(u));
        lemma_sum(retries_problems(ups, n - 1), retry_problems(u), e);
    }
}

proof fn lemma_general_flaw(config: GatePupConfig, e: ValidationError)
    ensures
        general_flaw(config, e) <==> app_problems(config.app).contains(e) || duplicate_upstreams(
            config.upstreams@,
            config.upstreams@.len() as int,
        ).contains(e) || admin_problems(config).contains(e) || timeout_problems(config).contains(e)
            || limits_problems(config).contains(e) || proxy_problems(
            config.trusted_proxies@,
            config.trusted_proxies@.len() as int,
        ).contains(e),
{
    let entries = config.trusted_proxies@;
    lemma_when(
        !crate::validator::is_log_level(config.app.log_level@),
        ValidationError::InvalidLogLevel { value: config.app.log_level },
        e,
    );
    lemma_duplicate_upstreams(config, config.upstreams@.len() as int, e);
    if let Some(admin) = config.admin {
        lemma_when(
            socket_of(admin.bind@) is None,
            ValidationError::InvalidAdminBind { bind: admin.bind },
            e,
        );
    }
    let p1 = ValidationError::ZeroTimeout { field: "connectTimeoutMs" };
    let p2 = ValidationError::ZeroTimeout { field: "requestTimeoutMs" };
    let c1 = config.timeouts.connect_timeout_ms == 0;
    let c2 = config.timeouts.request_timeout_ms == 0;
    lemma_when(c1, p1, e);
    lemma_and_when(if_so(c1, p1), c2, p2, e);
    let size = config.limits.max_header_bytes;
    lemma_when(
        0 < size < crate::validator::MIN_HEADER_BYTES,
        ValidationError::MaxHeaderBytesTooSmall { value: size },
        e,
    );
    lemma_proxies_flaw(entries, entries.len() as int, e);
}

proof fn lemma_proxies_flaw(entries: Seq<String>, n: int, e: ValidationError)
    requires
        0 <= n <= entries.len(),
    ensures
        proxy_problems(entries, n).contains(e) <==> exists|i: int|
            0 <= i < n && !entry_names((#[trigger] entries[i])@) && e
                == (ValidationError::InvalidTrustedProxy { value: entries[i] }),
    decreases n,
{
    if n > 0 {
        lemma_proxies_flaw(entries, n - 1, e);
        let value = entries[n - 1];
        let q = ValidationError::InvalidTrustedProxy { value };
        lemma_and_when(proxy_problems(entries, n - 1), !entry_names(value@), q, e);
    }
}

/// Validation tells every problem that a config has, with the names of what it is about,
/// and no problem that it has not.
pub proof fn every_problem_is_told(
    config: GatePupConfig,
    r: Result<(), Vec<ValidationError>>,
    e: ValidationError,
)
    requires
        call_ensures(validate, (&config,), r),
    ensures
        match r {
            Ok(_) => !flaw(config, e),
            Err(errors) => errors@.contains(e) <==> flaw(config, e),
        },
{
    let ups = config.upstreams@;
    let ls = config.listeners@;
    let n = ups.len() as int;
    let m = ls.len() as int;
    let k = config.trusted_proxies@.len() as int;
    lemma_general_flaw(config, e);
    lemma_listeners_flaw(ls, m, ups, e);
    lemma_rules_flaw(ls, m, e);
    lemma_upstreams_flaw(ups, n, e);
    let s1 = app_problems(config.app) + duplicate_upstreams(ups, n);
    let s2 = s1 + listeners_problems(ls, m, ups);
    let s3 = s2 + upstreams_problems(ups, n);
    let s4 = s3 + retries_problems(ups, n);
    let s5 = s4 + admin_problems(config);
    let s6 = s5 + timeout_problems(config);
    let s7 = s6 + limits_problems(config);
    let s8 = s7 + proxy_problems(config.trusted_proxies@, k);
    lemma_sum(app_problems(config.app), duplicate_upstreams(ups, n), e);
    lemma_sum(s1, listeners_problems(ls, m, ups), e);
    lemma_sum(s2, upstreams_problems(ups, n), e);
    lemma_sum(s3, retries_problems(ups, n), e);
    lemma_sum(s4, admin_problems(config), e);
    lemma_sum(s5, timeout_problems(config), e);
    lemma_sum(s6, limits_problems(config), e);
    lemma_sum(s7, proxy_problems(config.trusted_proxies@, k), e);
    lemma_sum(s8, rules_problems(ls, m), e);
    assert(problems(config) == s8 + rules_problems(ls, m));
    assert(problems(config).contains(e) == flaw(config, e));
}

} // verus!
