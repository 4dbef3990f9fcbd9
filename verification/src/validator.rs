//! Validation of a config document.
//!
//! Each check has a specification that lists the problems it reports, in order;
//! [`validate`] reports all of them at once.

use vstd::prelude::*;
use vstd::utf8::encode_utf8;
use crate::error::ValidationError;
use crate::headers::{is_field_value, is_value, parse_name};
use crate::model::{
    blank, AppConfig, GatePupConfig, HeaderOpsConfig, HealthCheckConfig, ListenerConfig,
    MatchConfig, Protocol, RetryConfig, RouteConfig, UpstreamConfig,
};
use crate::net::{cidr_of, network_of, parse_socket_address, parse_trusted_proxy, socket_of};
use crate::text::{chars_of, contains_char, lower, opt_text, string_of_range, text_eq, to_lower};
use crate::uri::{http_url, is_token, is_valid_target_url, url_of};

verus! {

/// A list of problems.
pub type Problems = Seq<ValidationError>;

/// The problem where the condition holds, none where it does not.
pub open spec fn when(condition: bool, problem: ValidationError) -> Problems {
    if condition {
        seq![problem]
    } else {
        Seq::empty()
    }
}

/// A log level, in any case.
pub open spec fn is_log_level(s: Seq<char>) -> bool {
    let l = lower(s);
    ||| l == "trace"@
    ||| l == "debug"@
    ||| l == "info"@
    ||| l == "warn"@
    ||| l == "error"@
    ||| l == "off"@
}

pub open spec fn app_problems(app: AppConfig) -> Problems {
    when(
        !is_log_level(app.log_level@),
        ValidationError::InvalidLogLevel { value: app.log_level },
    )
}

/// Whether one of the first `n` upstreams has this name.
pub open spec fn upstream_named(upstreams: Seq<UpstreamConfig>, n: int, name: Seq<char>) -> bool {
    exists|i: int| 0 <= i < n && #[trigger] upstreams[i].name@ == name
}

/// One problem for each of the first `n` upstreams that repeats an earlier name.
pub open spec fn duplicate_upstreams(upstreams: Seq<UpstreamConfig>, n: int) -> Problems
    decreases n,
{
    if n <= 0 {
        Seq::empty()
    } else {
        duplicate_upstreams(upstreams, n - 1) + when(
            upstream_named(upstreams, n - 1, upstreams[n - 1].name@),
            ValidationError::DuplicateUpstreamName(upstreams[n - 1].name),
        )
    }
}

/// Whether one of the first `n` listeners has this name.
pub open spec fn listener_named(listeners: Seq<ListenerConfig>, n: int, name: Seq<char>) -> bool {
    exists|i: int| 0 <= i < n && #[trigger] listeners[i].name@ == name
}

/// Whether one of the first `n` routes has this name.
pub open spec fn route_named(routes: Seq<RouteConfig>, n: int, name: Seq<char>) -> bool {
    exists|i: int| 0 <= i < n && #[trigger] routes[i].name@ == name
}

/// Problems with the TLS part of a listener: `https` needs it, `http` must not
/// have it, and both paths must be given.
pub open spec fn tls_problems(listener: ListenerConfig) -> Problems {
    match (listener.protocol, listener.tls) {
        (Protocol::Https, None) => seq![ValidationError::MissingTls { listener: listener.name }],
        (Protocol::Http, Some(_)) => seq![
            ValidationError::UnexpectedTls { listener: listener.name },
        ],
        (Protocol::Https, Some(tls)) => when(
            tls.cert@.len() == 0,
            ValidationError::EmptyTlsPath { listener: listener.name, field: "cert" },
        ) + when(
            tls.key@.len() == 0,
            ValidationError::EmptyTlsPath { listener: listener.name, field: "key" },
        ),
        (Protocol::Http, None) => Seq::empty(),
    }
}

/// A wildcard host is valid only as a single leading `*.` label, e.g.
/// `*.example.com` (no other `*`).
pub open spec fn wildcard_host(host: Seq<char>) -> bool {
    &&& host.len() > 2
    &&& host[0] == '*'
    &&& host[1] == '.'
    &&& !host.skip(2).contains('*')
}

/// The path prefix that a route goes by: `/` where none is given.
pub open spec fn prefix_of(matcher: MatchConfig) -> Seq<char> {
    if blank(matcher.path_prefix) {
        "/"@
    } else {
        matcher.path_prefix->0@
    }
}

/// What two routes of one listener must not share: host and path prefix.
pub open spec fn match_key(matcher: MatchConfig) -> (Option<Seq<char>>, Seq<char>) {
    (opt_text(matcher.host), prefix_of(matcher))
}

/// The first of the first `n` routes with this key.
pub open spec fn first_with_key(
    routes: Seq<RouteConfig>,
    n: int,
    key: (Option<Seq<char>>, Seq<char>),
) -> Option<int>
    decreases n,
{
    if n <= 0 {
        None
    } else {
        match first_with_key(routes, n - 1, key) {
            Some(k) => Some(k),
            None => if match_key(routes[n - 1].matcher) == key {
                Some(n - 1)
            } else {
                None
            },
        }
    }
}

/// Problems with one route, given the routes of its listener and the upstreams.
pub open spec fn route_problems(
    listener: ListenerConfig,
    j: int,
    upstreams: Seq<UpstreamConfig>,
) -> Problems {
    let routes = listener.routes@;
    let route = routes[j];
    let prefix = route.matcher.path_prefix;
    let host = route.matcher.host;
    when(
        route_named(routes, j, route.name@),
        ValidationError::DuplicateRouteName { listener: listener.name, route: route.name },
    ) + when(
        blank(host) && blank(prefix),
        ValidationError::EmptyRouteMatch { listener: listener.name, route: route.name },
    ) + when(
        !blank(prefix) && prefix->0@[0] != '/',
        ValidationError::InvalidPathPrefix {
            listener: listener.name,
            route: route.name,
            prefix: prefix->0,
        },
    ) + when(
        host is Some && host->0@.contains('*') && !wildcard_host(host->0@),
        ValidationError::InvalidWildcardHost {
            listener: listener.name,
            route: route.name,
            host: host->0,
        },
    ) + (match first_with_key(routes, j, match_key(route.matcher)) {
        Some(k) => seq![
            ValidationError::ConflictingRoutes {
                listener: listener.name,
                first: routes[k].name,
                second: route.name,
            },
        ],
        None => Seq::empty(),
    }) + when(
        !upstream_named(upstreams, upstreams.len() as int, route.upstream@),
        ValidationError::UnknownUpstream { route: route.name, upstream: route.upstream },
    )
}

/// Problems with the first `n` routes of a listener.
pub open spec fn routes_problems(
    listener: ListenerConfig,
    n: int,
    upstreams: Seq<UpstreamConfig>,
) -> Problems
    decreases n,
{
    if n <= 0 {
        Seq::empty()
    } else {
        routes_problems(listener, n - 1, upstreams) + route_problems(listener, n - 1, upstreams)
    }
}

/// Problems with listener `i`.
pub open spec fn listener_problems(
    listeners: Seq<ListenerConfig>,
    i: int,
    upstreams: Seq<UpstreamConfig>,
) -> Problems {
    let listener = listeners[i];
    when(
        listener_named(listeners, i, listener.name@),
        ValidationError::DuplicateListenerName(listener.name),
    ) + when(
        socket_of(listener.bind@) is None,
        ValidationError::InvalidBind { listener: listener.name, bind: listener.bind },
    ) + tls_problems(listener) + routes_problems(
        listener,
        listener.routes@.len() as int,
        upstreams,
    )
}

/// Problems with the first `n` listeners.
pub open spec fn listeners_problems(
    listeners: Seq<ListenerConfig>,
    n: int,
    upstreams: Seq<UpstreamConfig>,
) -> Problems
    decreases n,
{
    if n <= 0 {
        Seq::empty()
    } else {
        listeners_problems(listeners, n - 1, upstreams) + listener_problems(
            listeners,
            n - 1,
            upstreams,
        )
    }
}

/// Problems with the first `n` targets of an upstream.
pub open spec fn targets_problems(upstream: UpstreamConfig, n: int) -> Problems
    decreases n,
{
    if n <= 0 {
        Seq::empty()
    } else {
        let target = upstream.targets@[n - 1];
        targets_problems(upstream, n - 1) + when(
            !http_url(url_of(target.url@)),
            ValidationError::InvalidTargetUrl { upstream: upstream.name, url: target.url },
        ) + when(
            target.weight == 0,
            ValidationError::ZeroWeight { upstream: upstream.name, url: target.url },
        )
    }
}

/// The probe interval in milliseconds, as far as a `u64` goes.
pub open spec fn interval_ms(hc: HealthCheckConfig) -> u64 {
    if hc.interval_seconds * 1000 > u64::MAX {
        u64::MAX
    } else {
        (hc.interval_seconds * 1000) as u64
    }
}

pub open spec fn health_problems(upstream: UpstreamConfig) -> Problems {
    match upstream.health_check {
        Some(hc) => when(
            hc.timeout_ms >= interval_ms(hc),
            ValidationError::HealthTimeoutNotLessThanInterval {
                upstream: upstream.name,
                timeout_ms: hc.timeout_ms,
                interval_ms: interval_ms(hc),
            },
        ),
        None => Seq::empty(),
    }
}

/// Problems with the first `n` upstreams: no targets, bad targets, or a health
/// check that outlasts its interval.
pub open spec fn upstreams_problems(upstreams: Seq<UpstreamConfig>, n: int) -> Problems
    decreases n,
{
    if n <= 0 {
        Seq::empty()
    } else {
        let upstream = upstreams[n - 1];
        upstreams_problems(upstreams, n - 1) + when(
            upstream.targets@.len() == 0,
            ValidationError::EmptyTargets { upstream: upstream.name },
        ) + targets_problems(upstream, upstream.targets@.len() as int) + health_problems(upstream)
    }
}

/// A method that may be listed for retries.
pub open spec fn retry_method(s: Seq<char>) -> bool {
    ||| s == "GET"@
    ||| s == "HEAD"@
    ||| s == "POST"@
    ||| s == "PUT"@
    ||| s == "PATCH"@
    ||| s == "DELETE"@
    ||| s == "OPTIONS"@
    ||| s == "TRACE"@
    ||| s == "CONNECT"@
}

/// A condition that retries may be asked for on.
pub open spec fn retry_condition(s: Seq<char>) -> bool {
    ||| s == "connect_error"@
    ||| s == "connect_timeout"@
    ||| s == "upstream_5xx"@
}

pub open spec fn retry_method_problems(upstream: UpstreamConfig, r: RetryConfig, n: int) -> Problems
    decreases n,
{
    if n <= 0 {
        Seq::empty()
    } else {
        retry_method_problems(upstream, r, n - 1) + when(
            !retry_method(r.methods@[n - 1]@),
            ValidationError::InvalidRetryMethod {
                upstream: upstream.name,
                method: r.methods@[n - 1],
            },
        )
    }
}

pub open spec fn retry_condition_problems(
    upstream: UpstreamConfig,
    r: RetryConfig,
    n: int,
) -> Problems
    decreases n,
{
    if n <= 0 {
        Seq::empty()
    } else {
        retry_condition_problems(upstream, r, n - 1) + when(
            !retry_condition(r.retry_on@[n - 1]@),
            ValidationError::InvalidRetryOn { upstream: upstream.name, value: r.retry_on@[n - 1] },
        )
    }
}

/// Problems with the retry policy of an upstream; a policy that is off has none.
pub open spec fn retry_problems(upstream: UpstreamConfig) -> Problems {
    match upstream.retries {
        Some(r) if r.enabled => when(
            r.attempts < 1,
            ValidationError::InvalidRetryAttempts { upstream: upstream.name },
        ) + when(
            r.methods@.len() == 0,
            ValidationError::EmptyRetryList { upstream: upstream.name, field: "methods" },
        ) + when(
            r.retry_on@.len() == 0,
            ValidationError::EmptyRetryList { upstream: upstream.name, field: "retryOn" },
        ) + retry_method_problems(upstream, r, r.methods@.len() as int) + retry_condition_problems(
            upstream,
            r,
            r.retry_on@.len() as int,
        ),
        _ => Seq::empty(),
    }
}

/// Problems with the retry policies of the first `n` upstreams.
pub open spec fn retries_problems(upstreams: Seq<UpstreamConfig>, n: int) -> Problems
    decreases n,
{
    if n <= 0 {
        Seq::empty()
    } else {
        retries_problems(upstreams, n - 1) + retry_problems(upstreams[n - 1])
    }
}

pub open spec fn admin_problems(config: GatePupConfig) -> Problems {
    match config.admin {
        Some(admin) => when(
            socket_of(admin.bind@) is None,
            ValidationError::InvalidAdminBind { bind: admin.bind },
        ),
        None => Seq::empty(),
    }
}

pub open spec fn timeout_problems(config: GatePupConfig) -> Problems {
    when(
        config.timeouts.connect_timeout_ms == 0,
        ValidationError::ZeroTimeout { field: "connectTimeoutMs" },
    ) + when(
        config.timeouts.request_timeout_ms == 0,
        ValidationError::ZeroTimeout { field: "requestTimeoutMs" },
    )
}

/// The least `maxHeaderBytes` that may be set.
pub const MIN_HEADER_BYTES: usize = 8192;

pub open spec fn limits_problems(config: GatePupConfig) -> Problems {
    when(
        0 < config.limits.max_header_bytes < MIN_HEADER_BYTES,
        ValidationError::MaxHeaderBytesTooSmall { value: config.limits.max_header_bytes },
    )
}

/// Whether an entry names a network: a CIDR block or a bare address.
pub open spec fn names_network(s: Seq<char>) -> bool {
    network_of(cidr_of(s), s) is Some
}

/// Problems with the first `n` trusted proxies.
pub open spec fn proxy_problems(entries: Seq<String>, n: int) -> Problems
    decreases n,
{
    if n <= 0 {
        Seq::empty()
    } else {
        proxy_problems(entries, n - 1) + when(
            !names_network(entries[n - 1]@),
            ValidationError::InvalidTrustedProxy { value: entries[n - 1] },
        )
    }
}

/// Problems with the first `n` entries of an access list.
pub open spec fn access_problems(
    listener: ListenerConfig,
    route: RouteConfig,
    entries: Seq<String>,
    n: int,
) -> Problems
    decreases n,
{
    if n <= 0 {
        Seq::empty()
    } else {
        access_problems(listener, route, entries, n - 1) + when(
            !names_network(entries[n - 1]@),
            ValidationError::InvalidIpAccess {
                listener: listener.name,
                route: route.name,
                value: entries[n - 1],
            },
        )
    }
}

/// A text that may name a header.
pub open spec fn header_name(s: Seq<char>) -> bool {
    is_token(s) && s.len() <= 0xffff
}

/// Problems with the first `n` headers that a rule removes.
pub open spec fn remove_problems(
    listener: ListenerConfig,
    route: RouteConfig,
    ops: HeaderOpsConfig,
    n: int,
) -> Problems
    decreases n,
{
    if n <= 0 {
        Seq::empty()
    } else {
        remove_problems(listener, route, ops, n - 1) + when(
            !header_name(ops.remove@[n - 1]@),
            ValidationError::InvalidHeaderName {
                listener: listener.name,
                route: route.name,
                name: ops.remove@[n - 1],
            },
        )
    }
}

/// Problems with the first `n` headers that a rule sets.
pub open spec fn set_problems(
    listener: ListenerConfig,
    route: RouteConfig,
    ops: HeaderOpsConfig,
    n: int,
) -> Problems
    decreases n,
{
    if n <= 0 {
        Seq::empty()
    } else {
        set_problems(listener, route, ops, n - 1) + when(
            !header_name(ops.set@[n - 1].0@),
            ValidationError::InvalidHeaderName {
                listener: listener.name,
                route: route.name,
                name: ops.set@[n - 1].0,
            },
        ) + when(
            !is_field_value(encode_utf8(ops.set@[n - 1].1@)),
            ValidationError::InvalidHeaderValue {
                listener: listener.name,
                route: route.name,
                name: ops.set@[n - 1].0,
            },
        )
    }
}

pub open spec fn ops_problems(
    listener: ListenerConfig,
    route: RouteConfig,
    ops: HeaderOpsConfig,
) -> Problems {
    set_problems(listener, route, ops, ops.set@.len() as int) + remove_problems(
        listener,
        route,
        ops,
        ops.remove@.len() as int,
    )
}

/// Problems with the header rules and the access list of a route.
pub open spec fn rule_problems(listener: ListenerConfig, route: RouteConfig) -> Problems {
    (match route.headers {
        Some(h) => ops_problems(listener, route, h.request) + ops_problems(
            listener,
            route,
            h.response,
        ),
        None => Seq::empty(),
    }) + (match route.ip_access {
        Some(a) => access_problems(listener, route, a.allow@, a.allow@.len() as int)
            + access_problems(listener, route, a.deny@, a.deny@.len() as int),
        None => Seq::empty(),
    })
}

/// Problems with the rules of the first `n` routes of a listener.
pub open spec fn listener_rules_problems(listener: ListenerConfig, n: int) -> Problems
    decreases n,
{
    if n <= 0 {
        Seq::empty()
    } else {
        listener_rules_problems(listener, n - 1) + rule_problems(
            listener,
            listener.routes@[n - 1],
        )
    }
}

/// Problems with the route rules of the first `n` listeners.
pub open spec fn rules_problems(listeners: Seq<ListenerConfig>, n: int) -> Problems
    decreases n,
{
    if n <= 0 {
        Seq::empty()
    } else {
        rules_problems(listeners, n - 1) + listener_rules_problems(
            listeners[n - 1],
            listeners[n - 1].routes@.len() as int,
        )
    }
}

/// Every problem of a config, in the order in which they are reported.
pub open spec fn problems(config: GatePupConfig) -> Problems {
    app_problems(config.app) + duplicate_upstreams(
        config.upstreams@,
        config.upstreams@.len() as int,
    ) + listeners_problems(
        config.listeners@,
        config.listeners@.len() as int,
        config.upstreams@,
    ) + upstreams_problems(config.upstreams@, config.upstreams@.len() as int) + retries_problems(
        config.upstreams@,
        config.upstreams@.len() as int,
    ) + admin_problems(config) + timeout_problems(config) + limits_problems(config)
        + proxy_problems(
        config.trusted_proxies@,
        config.trusted_proxies@.len() as int,
    ) + rules_problems(config.listeners@, config.listeners@.len() as int)
}

fn check_app(config: &GatePupConfig, errors: &mut Vec<ValidationError>)
    ensures
        final(errors)@ == old(errors)@ + app_problems(config.app),
{
    let level = to_lower(config.app.log_level.as_str());
    let l = level.as_str();
    let known = text_eq(l, "trace") || text_eq(l, "debug") || text_eq(l, "info") || text_eq(
        l,
        "warn",
    ) || text_eq(l, "error") || text_eq(l, "off");
    if !known {
        errors.push(ValidationError::InvalidLogLevel { value: config.app.log_level.clone() });
    }
}

/// Whether one of the first `n` upstreams has this name.
fn has_upstream(upstreams: &Vec<UpstreamConfig>, n: usize, name: &str) -> (r: bool)
    requires
        n <= upstreams.len(),
    ensures
        r == upstream_named(upstreams@, n as int, name@),
{
    let mut i: usize = 0;
    while i < n
        invariant
            i <= n <= upstreams.len(),
            forall|j: int| 0 <= j < i ==> #[trigger] upstreams@[j].name@ != name@,
        decreases n - i,
    {
        if text_eq(upstreams[i].name.as_str(), name) {
            return true;
        }
        i += 1;
    }
    false
}

fn check_unique_upstreams(config: &GatePupConfig, errors: &mut Vec<ValidationError>)
    ensures
        final(errors)@ == old(errors)@ + duplicate_upstreams(
            config.upstreams@,
            config.upstreams@.len() as int,
        ),
{
    let ghost before = errors@;
    let mut i: usize = 0;
    while i < config.upstreams.len()
        invariant
            i <= config.upstreams.len(),
            errors@ == before + duplicate_upstreams(config.upstreams@, i as int),
        decreases config.upstreams.len() - i,
    {
        let upstream = &config.upstreams[i];
        if has_upstream(&config.upstreams, i, upstream.name.as_str()) {
            errors.push(ValidationError::DuplicateUpstreamName(upstream.name.clone()));
        }
        i += 1;
    }
}

/// Whether one of the first `n` listeners has this name.
fn has_listener(listeners: &Vec<ListenerConfig>, n: usize, name: &str) -> (r: bool)
    requires
        n <= listeners.len(),
    ensures
        r == listener_named(listeners@, n as int, name@),
{
    let mut i: usize = 0;
    while i < n
        invariant
            i <= n <= listeners.len(),
            forall|j: int| 0 <= j < i ==> #[trigger] listeners@[j].name@ != name@,
        decreases n - i,
    {
        if text_eq(listeners[i].name.as_str(), name) {
            return true;
        }
        i += 1;
    }
    false
}

/// Whether one of the first `n` routes has this name.
fn has_route(routes: &Vec<RouteConfig>, n: usize, name: &str) -> (r: bool)
    requires
        n <= routes.len(),
    ensures
        r == route_named(routes@, n as int, name@),
{
    let mut i: usize = 0;
    while i < n
        invariant
            i <= n <= routes.len(),
            forall|j: int| 0 <= j < i ==> #[trigger] routes@[j].name@ != name@,
        decreases n - i,
    {
        if text_eq(routes[i].name.as_str(), name) {
            return true;
        }
        i += 1;
    }
    false
}

/// A wildcard host is valid only as a single leading `*.` label, e.g.
/// `*.example.com` (no other `*`).
pub fn is_valid_wildcard_host(host: &str) -> (r: bool)
    ensures
        r == wildcard_host(host@),
{
    let x = chars_of(host);
    if x.len() <= 2 || x[0] != '*' || x[1] != '.' {
        return false;
    }
    let rest = string_of_range(&x, 2, x.len());
    assert(rest@ == host@.skip(2));
    !contains_char(rest.as_str(), '*')
}

/// The path prefix that a route goes by: `/` where none is given.
pub fn effective_prefix(matcher: &MatchConfig) -> (r: String)
    ensures
        r@ == prefix_of(*matcher),
{
    match &matcher.path_prefix {
        Some(p) => if p.as_str().is_empty() {
            "/".to_string()
        } else {
            p.clone()
        },
        None => "/".to_string(),
    }
}

/// Whether two optional texts are the same.
fn same_text(a: &Option<String>, b: &Option<String>) -> (r: bool)
    ensures
        r == (opt_text(*a) == opt_text(*b)),
{
    match (a, b) {
        (Some(x), Some(y)) => text_eq(x.as_str(), y.as_str()),
        (None, None) => true,
        _ => false,
    }
}

/// Whether two routes match the same host and path prefix.
fn same_match(a: &MatchConfig, b: &MatchConfig) -> (r: bool)
    ensures
        r == (match_key(*a) == match_key(*b)),
{
    let x = effective_prefix(a);
    let y = effective_prefix(b);
    same_text(&a.host, &b.host) && text_eq(x.as_str(), y.as_str())
}

/// The first of the first `n` routes that matches what `matcher` matches.
fn find_same_match(routes: &Vec<RouteConfig>, n: usize, matcher: &MatchConfig) -> (r: Option<usize>)
    requires
        n <= routes.len(),
    ensures
        match r {
            Some(k) => k < n && first_with_key(routes@, n as int, match_key(*matcher)) == Some(
                k as int,
            ),
            None => first_with_key(routes@, n as int, match_key(*matcher)) is None,
        },
{
    let ghost key = match_key(*matcher);
    let mut i: usize = 0;
    while i < n
        invariant
            i <= n <= routes.len(),
            key == match_key(*matcher),
            first_with_key(routes@, i as int, key) is None,
        decreases n - i,
    {
        if same_match(&routes[i].matcher, matcher) {
            proof {
                assert(first_with_key(routes@, i + 1, key) == Some(i as int));
                lemma_first_stays(routes@, i + 1, n as int, key);
            }
            return Some(i);
        }
        i += 1;
    }
    None
}

proof fn lemma_first_stays(
    routes: Seq<RouteConfig>,
    a: int,
    b: int,
    key: (Option<Seq<char>>, Seq<char>),
)
    requires
        0 <= a <= b,
        first_with_key(routes, a, key) is Some,
    ensures
        first_with_key(routes, b, key) == first_with_key(routes, a, key),
    decreases b,
{
    if a < b {
        lemma_first_stays(routes, a, b - 1, key);
    }
}

fn check_route(
    listener: &ListenerConfig,
    j: usize,
    upstreams: &Vec<UpstreamConfig>,
    errors: &mut Vec<ValidationError>,
)
    requires
        j < listener.routes.len(),
    ensures
        final(errors)@ == old(errors)@ + route_problems(*listener, j as int, upstreams@),
{
    let ghost before = errors@;
    let route = &listener.routes[j];
    if has_route(&listener.routes, j, route.name.as_str()) {
        errors.push(
            ValidationError::DuplicateRouteName {
                listener: listener.name.clone(),
                route: route.name.clone(),
            },
        );
    }
    if route.matcher.is_empty() {
        errors.push(
            ValidationError::EmptyRouteMatch {
                listener: listener.name.clone(),
                route: route.name.clone(),
            },
        );
    }
    if let Some(prefix) = &route.matcher.path_prefix {
        let x = chars_of(prefix.as_str());
        if x.len() > 0 && x[0] != '/' {
            errors.push(
                ValidationError::InvalidPathPrefix {
                    listener: listener.name.clone(),
                    route: route.name.clone(),
                    prefix: prefix.clone(),
                },
            );
        }
    }
    if let Some(host) = &route.matcher.host {
        if contains_char(host.as_str(), '*') && !is_valid_wildcard_host(host.as_str()) {
            errors.push(
                ValidationError::InvalidWildcardHost {
                    listener: listener.name.clone(),
                    route: route.name.clone(),
                    host: host.clone(),
                },
            );
        }
    }
    // Two routes with the same effective (host, path prefix) are ambiguous.
    if let Some(k) = find_same_match(&listener.routes, j, &route.matcher) {
        errors.push(
            ValidationError::ConflictingRoutes {
                listener: listener.name.clone(),
                first: listener.routes[k].name.clone(),
                second: route.name.clone(),
            },
        );
    }
    if !has_upstream(upstreams, upstreams.len(), route.upstream.as_str()) {
        errors.push(
            ValidationError::UnknownUpstream {
                route: route.name.clone(),
                upstream: route.upstream.clone(),
            },
        );
    }
    assert(errors@ == before + route_problems(*listener, j as int, upstreams@));
}

fn check_listener_tls(listener: &ListenerConfig, errors: &mut Vec<ValidationError>)
    ensures
        final(errors)@ == old(errors)@ + tls_problems(*listener),
{
    match (listener.protocol, &listener.tls) {
        (Protocol::Https, None) => errors.push(
            ValidationError::MissingTls { listener: listener.name.clone() },
        ),
        (Protocol::Http, Some(_)) => errors.push(
            ValidationError::UnexpectedTls { listener: listener.name.clone() },
        ),
        (Protocol::Https, Some(tls)) => {
            if tls.cert.as_str().is_empty() {
                errors.push(
                    ValidationError::EmptyTlsPath {
                        listener: listener.name.clone(),
                        field: "cert",
                    },
                );
            }
            if tls.key.as_str().is_empty() {
                errors.push(
                    ValidationError::EmptyTlsPath { listener: listener.name.clone(), field: "key" },
                );
            }
        },
        (Protocol::Http, None) => {},
    }
}

fn check_listener(config: &GatePupConfig, i: usize, errors: &mut Vec<ValidationError>)
    requires
        i < config.listeners.len(),
    ensures
        final(errors)@ == old(errors)@ + listener_problems(
            config.listeners@,
            i as int,
            config.upstreams@,
        ),
{
    let ghost before = errors@;
    let listener = &config.listeners[i];
    if has_listener(&config.listeners, i, listener.name.as_str()) {
        errors.push(ValidationError::DuplicateListenerName(listener.name.clone()));
    }
    if parse_socket_address(listener.bind.as_str()).is_none() {
        errors.push(
            ValidationError::InvalidBind {
                listener: listener.name.clone(),
                bind: listener.bind.clone(),
            },
        );
    }
    check_listener_tls(listener, errors);
    let ghost head = errors@;
    let mut j: usize = 0;
    while j < listener.routes.len()
        invariant
            j <= listener.routes.len(),
            errors@ == head + routes_problems(*listener, j as int, config.upstreams@),
        decreases listener.routes.len() - j,
    {
        check_route(listener, j, &config.upstreams, errors);
        j += 1;
    }
    assert(errors@ == before + listener_problems(config.listeners@, i as int, config.upstreams@));
}

fn check_listeners(config: &GatePupConfig, errors: &mut Vec<ValidationError>)
    ensures
        final(errors)@ == old(errors)@ + listeners_problems(
            config.listeners@,
            config.listeners@.len() as int,
            config.upstreams@,
        ),
{
    let ghost before = errors@;
    let mut i: usize = 0;
    while i < config.listeners.len()
        invariant
            i <= config.listeners.len(),
            errors@ == before + listeners_problems(
                config.listeners@,
                i as int,
                config.upstreams@,
            ),
        decreases config.listeners.len() - i,
    {
        check_listener(config, i, errors);
        i += 1;
    }
}

fn check_health_timeout(
    upstream: &UpstreamConfig,
    hc: &HealthCheckConfig,
    errors: &mut Vec<ValidationError>,
)
    requires
        upstream.health_check == Some(*hc),
    ensures
        final(errors)@ == old(errors)@ + health_problems(*upstream),
{
    let interval: u64 = match hc.interval_seconds.checked_mul(1000) {
        Some(ms) => ms,
        None => u64::MAX,
    };
    if hc.timeout_ms >= interval {
        errors.push(
            ValidationError::HealthTimeoutNotLessThanInterval {
                upstream: upstream.name.clone(),
                timeout_ms: hc.timeout_ms,
                interval_ms: interval,
            },
        );
    }
}

fn check_upstreams(config: &GatePupConfig, errors: &mut Vec<ValidationError>)
    ensures
        final(errors)@ == old(errors)@ + upstreams_problems(
            config.upstreams@,
            config.upstreams@.len() as int,
        ),
{
    let ghost before = errors@;
    let mut i: usize = 0;
    while i < config.upstreams.len()
        invariant
            i <= config.upstreams.len(),
            errors@ == before + upstreams_problems(config.upstreams@, i as int),
        decreases config.upstreams.len() - i,
    {
        let upstream = &config.upstreams[i];
        if upstream.targets.len() == 0 {
            errors.push(ValidationError::EmptyTargets { upstream: upstream.name.clone() });
        }
        let ghost head = errors@;
        let mut j: usize = 0;
        while j < upstream.targets.len()
            invariant
                j <= upstream.targets.len(),
                errors@ == head + targets_problems(*upstream, j as int),
            decreases upstream.targets.len() - j,
        {
            let target = &upstream.targets[j];
            if !is_valid_target_url(target.url.as_str()) {
                errors.push(
                    ValidationError::InvalidTargetUrl {
                        upstream: upstream.name.clone(),
                        url: target.url.clone(),
                    },
                );
            }
            if target.weight == 0 {
                errors.push(
                    ValidationError::ZeroWeight {
                        upstream: upstream.name.clone(),
                        url: target.url.clone(),
                    },
                );
            }
            j += 1;
            assert(errors@ == head + targets_problems(*upstream, j as int));
        }
        if let Some(hc) = &upstream.health_check {
            check_health_timeout(upstream, hc, errors);
        }
        i += 1;
        assert(errors@ == before + upstreams_problems(config.upstreams@, i as int));
    }
}

fn is_retry_method(m: &str) -> (r: bool)
    ensures
        r == retry_method(m@),
{
    text_eq(m, "GET") || text_eq(m, "HEAD") || text_eq(m, "POST") || text_eq(m, "PUT") || text_eq(
        m,
        "PATCH",
    ) || text_eq(m, "DELETE") || text_eq(m, "OPTIONS") || text_eq(m, "TRACE") || text_eq(
        m,
        "CONNECT",
    )
}

fn is_retry_condition(c: &str) -> (r: bool)
    ensures
        r == retry_condition(c@),
{
    text_eq(c, "connect_error") || text_eq(c, "connect_timeout") || text_eq(c, "upstream_5xx")
}

fn check_retry(upstream: &UpstreamConfig, errors: &mut Vec<ValidationError>)
    ensures
        final(errors)@ == old(errors)@ + retry_problems(*upstream),
{
    let ghost before = errors@;
    let retries = match &upstream.retries {
        Some(r) => r,
        None => return ,
    };
    if !retries.enabled {
        return ;
    }
    if retries.attempts < 1 {
        errors.push(ValidationError::InvalidRetryAttempts { upstream: upstream.name.clone() });
    }
    if retries.methods.len() == 0 {
        errors.push(
            ValidationError::EmptyRetryList { upstream: upstream.name.clone(), field: "methods" },
        );
    }
    if retries.retry_on.len() == 0 {
        errors.push(
            ValidationError::EmptyRetryList { upstream: upstream.name.clone(), field: "retryOn" },
        );
    }
    let ghost head = errors@;
    let mut i: usize = 0;
    while i < retries.methods.len()
        invariant
            i <= retries.methods.len(),
            errors@ == head + retry_method_problems(*upstream, *retries, i as int),
        decreases retries.methods.len() - i,
    {
        let method = &retries.methods[i];
        if !is_retry_method(method.as_str()) {
            errors.push(
                ValidationError::InvalidRetryMethod {
                    upstream: upstream.name.clone(),
                    method: method.clone(),
                },
            );
        }
        i += 1;
    }
    let ghost middle = errors@;
    let mut j: usize = 0;
    while j < retries.retry_on.len()
        invariant
            j <= retries.retry_on.len(),
            errors@ == middle + retry_condition_problems(*upstream, *retries, j as int),
        decreases retries.retry_on.len() - j,
    {
        let condition = &retries.retry_on[j];
        if !is_retry_condition(condition.as_str()) {
            errors.push(
                ValidationError::InvalidRetryOn {
                    upstream: upstream.name.clone(),
                    value: condition.clone(),
                },
            );
        }
        j += 1;
    }
    assert(errors@ == before + retry_problems(*upstream));
}

fn check_retries(config: &GatePupConfig, errors: &mut Vec<ValidationError>)
    ensures
        final(errors)@ == old(errors)@ + retries_problems(
            config.upstreams@,
            config.upstreams@.len() as int,
        ),
{
    let ghost before = errors@;
    let mut i: usize = 0;
    while i < config.upstreams.len()
        invariant
            i <= config.upstreams.len(),
            errors@ == before + retries_problems(config.upstreams@, i as int),
        decreases config.upstreams.len() - i,
    {
        check_retry(&config.upstreams[i], errors);
        i += 1;
    }
}

fn check_admin(config: &GatePupConfig, errors: &mut Vec<ValidationError>)
    ensures
        final(errors)@ == old(errors)@ + admin_problems(*config),
{
    if let Some(admin) = &config.admin {
        if parse_socket_address(admin.bind.as_str()).is_none() {
            errors.push(ValidationError::InvalidAdminBind { bind: admin.bind.clone() });
        }
    }
}

fn check_timeouts(config: &GatePupConfig, errors: &mut Vec<ValidationError>)
    ensures
        final(errors)@ == old(errors)@ + timeout_problems(*config),
{
    if config.timeouts.connect_timeout_ms == 0 {
        errors.push(ValidationError::ZeroTimeout { field: "connectTimeoutMs" });
    }
    if config.timeouts.request_timeout_ms == 0 {
        errors.push(ValidationError::ZeroTimeout { field: "requestTimeoutMs" });
    }
}

fn check_limits(config: &GatePupConfig, errors: &mut Vec<ValidationError>)
    ensures
        final(errors)@ == old(errors)@ + limits_problems(*config),
{
    let value: usize = config.limits.max_header_bytes;
    if 0 < value && value < MIN_HEADER_BYTES {
        errors.push(ValidationError::MaxHeaderBytesTooSmall { value });
    }
}

fn check_trusted_proxies(config: &GatePupConfig, errors: &mut Vec<ValidationError>)
    ensures
        final(errors)@ == old(errors)@ + proxy_problems(
            config.trusted_proxies@,
            config.trusted_proxies@.len() as int,
        ),
{
    let ghost before = errors@;
    let mut i: usize = 0;
    while i < config.trusted_proxies.len()
        invariant
            i <= config.trusted_proxies.len(),
            errors@ == before + proxy_problems(config.trusted_proxies@, i as int),
        decreases config.trusted_proxies.len() - i,
    {
        let entry = &config.trusted_proxies[i];
        if parse_trusted_proxy(entry.as_str()).is_none() {
            errors.push(ValidationError::InvalidTrustedProxy { value: entry.clone() });
        }
        i += 1;
    }
}

fn check_access_list(
    listener: &ListenerConfig,
    route: &RouteConfig,
    entries: &Vec<String>,
    errors: &mut Vec<ValidationError>,
)
    ensures
        final(errors)@ == old(errors)@ + access_problems(
            *listener,
            *route,
            entries@,
            entries@.len() as int,
        ),
{
    let ghost before = errors@;
    let mut i: usize = 0;
    while i < entries.len()
        invariant
            i <= entries.len(),
            errors@ == before + access_problems(*listener, *route, entries@, i as int),
        decreases entries.len() - i,
    {
        let entry = &entries[i];
        if parse_trusted_proxy(entry.as_str()).is_none() {
            errors.push(
                ValidationError::InvalidIpAccess {
                    listener: listener.name.clone(),
                    route: route.name.clone(),
                    value: entry.clone(),
                },
            );
        }
        i += 1;
    }
}

fn check_header_ops(
    listener: &ListenerConfig,
    route: &RouteConfig,
    ops: &HeaderOpsConfig,
    errors: &mut Vec<ValidationError>,
)
    ensures
        final(errors)@ == old(errors)@ + ops_problems(*listener, *route, *ops),
{
    let ghost before = errors@;
    let mut i: usize = 0;
    while i < ops.set.len()
        invariant
            i <= ops.set.len(),
            errors@ == before + set_problems(*listener, *route, *ops, i as int),
        decreases ops.set.len() - i,
    {
        let entry = &ops.set[i];
        if parse_name(entry.0.as_str()).is_none() {
            errors.push(
                ValidationError::InvalidHeaderName {
                    listener: listener.name.clone(),
                    route: route.name.clone(),
                    name: entry.0.clone(),
                },
            );
        }
        if !is_value(entry.1.as_str()) {
            errors.push(
                ValidationError::InvalidHeaderValue {
                    listener: listener.name.clone(),
                    route: route.name.clone(),
                    name: entry.0.clone(),
                },
            );
        }
        i += 1;
        assert(errors@ == before + set_problems(*listener, *route, *ops, i as int));
    }
    let ghost middle = errors@;
    let mut j: usize = 0;
    while j < ops.remove.len()
        invariant
            j <= ops.remove.len(),
            errors@ == middle + remove_problems(*listener, *route, *ops, j as int),
        decreases ops.remove.len() - j,
    {
        let name = &ops.remove[j];
        if parse_name(name.as_str()).is_none() {
            errors.push(
                ValidationError::InvalidHeaderName {
                    listener: listener.name.clone(),
                    route: route.name.clone(),
                    name: name.clone(),
                },
            );
        }
        j += 1;
    }
    assert(errors@ == before + ops_problems(*listener, *route, *ops));
}

fn check_route_rules(
    listener: &ListenerConfig,
    route: &RouteConfig,
    errors: &mut Vec<ValidationError>,
)
    ensures
        final(errors)@ == old(errors)@ + rule_problems(*listener, *route),
{
    let ghost before = errors@;
    if let Some(rules) = &route.headers {
        check_header_ops(listener, route, &rules.request, errors);
        check_header_ops(listener, route, &rules.response, errors);
    }
    if let Some(access) = &route.ip_access {
        check_access_list(listener, route, &access.allow, errors);
        check_access_list(listener, route, &access.deny, errors);
    }
    assert(errors@ == before + rule_problems(*listener, *route));
}

fn check_rules(config: &GatePupConfig, errors: &mut Vec<ValidationError>)
    ensures
        final(errors)@ == old(errors)@ + rules_problems(
            config.listeners@,
            config.listeners@.len() as int,
        ),
{
    let ghost before = errors@;
    let mut i: usize = 0;
    while i < config.listeners.len()
        invariant
            i <= config.listeners.len(),
            errors@ == before + rules_problems(config.listeners@, i as int),
        decreases config.listeners.len() - i,
    {
        let listener = &config.listeners[i];
        let ghost head = errors@;
        let mut j: usize = 0;
        while j < listener.routes.len()
            invariant
                j <= listener.routes.len(),
                errors@ == head + listener_rules_problems(*listener, j as int),
            decreases listener.routes.len() - j,
        {
            check_route_rules(listener, &listener.routes[j], errors);
            j += 1;
        }
        i += 1;
        assert(errors@ == before + rules_problems(config.listeners@, i as int));
    }
}

/// Validate a parsed config. Returns every problem found, not just the first,
/// so the user can fix the whole file in one pass.
pub fn validate(config: &GatePupConfig) -> (r: Result<(), Vec<ValidationError>>)
    ensures
        match r {
            Ok(_) => problems(*config).len() == 0,
            Err(errors) => errors@ == problems(*config) && errors@.len() > 0,
        },
{
    let mut errors: Vec<ValidationError> = Vec::new();
    check_app(config, &mut errors);
    check_unique_upstreams(config, &mut errors);
    check_listeners(config, &mut errors);
    check_upstreams(config, &mut errors);
    check_retries(config, &mut errors);
    check_admin(config, &mut errors);
    check_timeouts(config, &mut errors);
    check_limits(config, &mut errors);
    check_trusted_proxies(config, &mut errors);
    check_rules(config, &mut errors);
    assert(errors@ == problems(*config));
    if errors.len() == 0 {
        Ok(())
    } else {
        Err(errors)
    }
}

proof fn lemma_clean_duplicates(upstreams: Seq<UpstreamConfig>, n: int)
    requires
        0 <= n <= upstreams.len(),
        duplicate_upstreams(upstreams, n).len() == 0,
    ensures
        forall|i: int, j: int|
            0 <= i < j < n ==> (#[trigger] upstreams[i]).name@ != (#[trigger] upstreams[j]).name@,
    decreases n,
{
    if n > 0 {
        lemma_clean_duplicates(upstreams, n - 1);
        assert(!upstream_named(upstreams, n - 1, upstreams[n - 1].name@));
    }
}

proof fn lemma_clean_routes(listener: ListenerConfig, n: int, upstreams: Seq<UpstreamConfig>)
    requires
        0 <= n <= listener.routes@.len(),
        routes_problems(listener, n, upstreams).len() == 0,
    ensures
        forall|j: int| 0 <= j < n ==> #[trigger] route_problems(listener, j, upstreams).len() == 0,
    decreases n,
{
    if n > 0 {
        lemma_clean_routes(listener, n - 1, upstreams);
    }
}

proof fn lemma_clean_listeners(
    listeners: Seq<ListenerConfig>,
    n: int,
    upstreams: Seq<UpstreamConfig>,
)
    requires
        0 <= n <= listeners.len(),
        listeners_problems(listeners, n, upstreams).len() == 0,
    ensures
        forall|i: int| 0 <= i < n ==> #[trigger] listener_problems(listeners, i, upstreams).len() == 0,
    decreases n,
{
    if n > 0 {
        lemma_clean_listeners(listeners, n - 1, upstreams);
    }
}

proof fn lemma_clean_targets(upstream: UpstreamConfig, n: int)
    requires
        0 <= n <= upstream.targets@.len(),
        targets_problems(upstream, n).len() == 0,
    ensures
        forall|j: int|
            0 <= j < n ==> (#[trigger] upstream.targets@[j]).weight > 0 && http_url(
                url_of(upstream.targets@[j].url@),
            ),
    decreases n,
{
    if n > 0 {
        lemma_clean_targets(upstream, n - 1);
    }
}

proof fn lemma_clean_upstreams(upstreams: Seq<UpstreamConfig>, n: int)
    requires
        0 <= n <= upstreams.len(),
        upstreams_problems(upstreams, n).len() == 0,
    ensures
        forall|i: int|
            0 <= i < n ==> (#[trigger] upstreams[i]).targets@.len() > 0 && targets_problems(
                upstreams[i],
                upstreams[i].targets@.len() as int,
            ).len() == 0,
    decreases n,
{
    if n > 0 {
        lemma_clean_upstreams(upstreams, n - 1);
    }
}

/// What a config without problems guarantees of its listeners: different names,
/// addresses that parse and, within a listener, routes with different names that
/// match something, no two of them the same, and lead to an upstream that exists.
pub proof fn valid_listeners(config: GatePupConfig)
    requires
        problems(config).len() == 0,
    ensures
        forall|i: int|
            0 <= i < config.listeners@.len() ==> socket_of(
                (#[trigger] config.listeners@[i]).bind@,
            ) is Some && !listener_named(config.listeners@, i, config.listeners@[i].name@),
        forall|i: int, j: int|
            0 <= i < config.listeners@.len() && 0 <= j < config.listeners@[i].routes@.len() ==> {
                let routes = config.listeners@[i].routes@;
                let route = #[trigger] config.listeners@[i].routes@[j];
                &&& !route_named(routes, j, route.name@)
                &&& !(blank(route.matcher.host) && blank(route.matcher.path_prefix))
                &&& prefix_of(route.matcher).len() > 0 && prefix_of(route.matcher)[0] == '/'
                &&& first_with_key(routes, j, match_key(route.matcher)) is None
                &&& upstream_named(
                    config.upstreams@,
                    config.upstreams@.len() as int,
                    route.upstream@,
                )
            },
{
    let ups = config.upstreams@;
    lemma_clean_listeners(config.listeners@, config.listeners@.len() as int, ups);
    reveal_strlit("/");
    assert forall|i: int, j: int|
        0 <= i < config.listeners@.len() && 0 <= j < config.listeners@[i].routes@.len() implies {
        let routes = config.listeners@[i].routes@;
        let route = #[trigger] config.listeners@[i].routes@[j];
        &&& !route_named(routes, j, route.name@)
        &&& !(blank(route.matcher.host) && blank(route.matcher.path_prefix))
        &&& prefix_of(route.matcher).len() > 0 && prefix_of(route.matcher)[0] == '/'
        &&& first_with_key(routes, j, match_key(route.matcher)) is None
        &&& upstream_named(config.upstreams@, config.upstreams@.len() as int, route.upstream@)
    } by {
        let listener = config.listeners@[i];
        assert(listener_problems(config.listeners@, i, ups).len() == 0);
        lemma_clean_routes(listener, listener.routes@.len() as int, ups);
        assert(route_problems(listener, j, ups).len() == 0);
    }
    assert forall|i: int| 0 <= i < config.listeners@.len() implies socket_of(
        (#[trigger] config.listeners@[i]).bind@,
    ) is Some && !listener_named(config.listeners@, i, config.listeners@[i].name@) by {
        assert(listener_problems(config.listeners@, i, ups).len() == 0);
    }
}

/// What a config without problems guarantees of its upstreams: different names, at
/// least one target, and targets with an HTTP address and a positive weight.
pub proof fn valid_upstreams(config: GatePupConfig)
    requires
        problems(config).len() == 0,
    ensures
        forall|i: int, j: int|
            0 <= i < j < config.upstreams@.len() ==> (#[trigger] config.upstreams@[i]).name@ != (
            #[trigger] config.upstreams@[j]).name@,
        forall|i: int|
            0 <= i < config.upstreams@.len() ==> (#[trigger] config.upstreams@[i]).targets@.len()
                > 0,
        forall|i: int, j: int|
            0 <= i < config.upstreams@.len() && 0 <= j < config.upstreams@[i].targets@.len() ==> (
            #[trigger] config.upstreams@[i].targets@[j]).weight > 0 && http_url(
                url_of(config.upstreams@[i].targets@[j].url@),
            ),
{
    let n = config.upstreams@.len() as int;
    lemma_clean_duplicates(config.upstreams@, n);
    lemma_clean_upstreams(config.upstreams@, n);
    assert forall|i: int, j: int|
        0 <= i < config.upstreams@.len() && 0 <= j < config.upstreams@[i].targets@.len() implies (
    #[trigger] config.upstreams@[i].targets@[j]).weight > 0 && http_url(
        url_of(config.upstreams@[i].targets@[j].url@),
    ) by {
        let upstream = config.upstreams@[i];
        lemma_clean_targets(upstream, upstream.targets@.len() as int);
    }
}

}
