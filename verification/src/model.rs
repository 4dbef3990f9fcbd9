//! The configuration document.

use vstd::prelude::*;

verus! {

/// Root configuration document. It is validated before it is turned into a
/// runtime snapshot.
#[derive(Debug, Clone)]
pub struct GatePupConfig {
    pub app: AppConfig,
    pub listeners: Vec<ListenerConfig>,
    pub upstreams: Vec<UpstreamConfig>,
    pub timeouts: TimeoutConfig,
    pub limits: LimitsConfig,
    /// CIDRs (or bare IPs) of proxies in front of GatePup whose `X-Forwarded-For`
    /// is trusted when resolving the real client IP. Empty (default) means the
    /// direct TCP peer is always treated as the client.
    pub trusted_proxies: Vec<String>,
    /// Response compression; off where absent or not enabled.
    pub compression: Option<CompressionConfig>,
    pub admin: Option<AdminConfig>,
    pub metrics: Option<MetricsConfig>,
}

/// Inbound resource limits (DoS hardening). Distinct from `timeouts`, which
/// bound the *upstream* round-trip; these bound what a *client* can consume.
#[derive(Debug, Clone, Copy, PartialEq, Eq)]
pub struct LimitsConfig {
    /// Max request body size in bytes; a larger body is rejected with 413.
    /// `0` (default) means unlimited.
    pub max_body_bytes: u64,
    /// Max time to read the full request header from a client (slowloris guard).
    /// `0` disables it. Default 15s.
    pub header_read_timeout_ms: u64,
    /// Max bytes for the connection read buffer, which bounds the request header
    /// section. `0` (default) keeps the server's built-in bound. When set, must be
    /// at least 8192.
    pub max_header_bytes: usize,
}

pub fn default_header_read_timeout_ms() -> (r: u64)
    ensures
        r == 15_000,
{
    15_000
}

impl Default for LimitsConfig {
    fn default() -> (r: Self)
        ensures
            r.max_body_bytes == 0,
            r.header_read_timeout_ms == 15_000,
            r.max_header_bytes == 0,
    {
        LimitsConfig {
            max_body_bytes: 0,
            header_read_timeout_ms: default_header_read_timeout_ms(),
            max_header_bytes: 0,
        }
    }
}

/// Proxy timeouts. `connect` bounds establishing the upstream connection;
/// `request` bounds the whole upstream round-trip (mapped to 504 on expiry).
#[derive(Debug, Clone, Copy, PartialEq, Eq)]
pub struct TimeoutConfig {
    pub connect_timeout_ms: u64,
    pub request_timeout_ms: u64,
}

pub fn default_connect_timeout_ms() -> (r: u64)
    ensures
        r == 5_000,
{
    5_000
}

pub fn default_request_timeout_ms() -> (r: u64)
    ensures
        r == 30_000,
{
    30_000
}

impl Default for TimeoutConfig {
    fn default() -> (r: Self)
        ensures
            r.connect_timeout_ms == 5_000,
            r.request_timeout_ms == 30_000,
    {
        TimeoutConfig {
            connect_timeout_ms: default_connect_timeout_ms(),
            request_timeout_ms: default_request_timeout_ms(),
        }
    }
}

#[derive(Debug, Clone)]
pub struct AppConfig {
    pub name: String,
    pub log_level: String,
}

pub fn default_log_level() -> (r: String)
    ensures
        r@ == "info"@,
{
    "info".to_string()
}

#[derive(Debug, Clone)]
pub struct ListenerConfig {
    pub name: String,
    pub bind: String,
    pub protocol: Protocol,
    pub tls: Option<TlsConfig>,
    pub routes: Vec<RouteConfig>,
}

#[derive(Debug, Clone, Copy, PartialEq, Eq, Structural)]
pub enum Protocol {
    Http,
    Https,
}

impl Default for Protocol {
    fn default() -> (r: Self)
        ensures
            r == Protocol::Http,
    {
        Protocol::Http
    }
}

/// TLS material for an `https` listener: PEM file paths.
#[derive(Debug, Clone)]
pub struct TlsConfig {
    pub cert: String,
    pub key: String,
}

#[derive(Debug, Clone)]
pub struct RouteConfig {
    pub name: String,
    pub matcher: MatchConfig,
    pub upstream: String,
    /// Strip the matched `pathPrefix` from the path before forwarding.
    pub strip_prefix: bool,
    /// Header rewrites applied to the upstream request and the client response.
    pub headers: Option<HeaderRulesConfig>,
    /// Which client addresses may use the route.
    pub ip_access: Option<IpAccessConfig>,
    /// How fast one client may use the route.
    pub rate_limit: Option<RateLimitConfig>,
    /// Credentials that the route asks for.
    pub basic_auth: Option<BasicAuthConfig>,
}

/// Client-IP access control: `deny` always blocks; a non-empty `allow` admits only
/// the listed networks. Entries are CIDRs or bare IPs.
#[derive(Debug, Clone)]
pub struct IpAccessConfig {
    pub allow: Vec<String>,
    pub deny: Vec<String>,
}

/// Token bucket of a route: `burst` requests at once, refilled at a steady rate,
/// counted in billionths of a request per second.
#[derive(Debug, Clone, Copy, PartialEq, Eq)]
pub struct RateLimitConfig {
    pub nano_requests_per_second: u64,
    pub burst: u32,
}

/// Name and password of each user that may use a route.
#[derive(Debug, Clone)]
pub struct BasicAuthConfig {
    pub users: Vec<(String, String)>,
}

/// Response compression: which algorithms (`gzip`, `br`), from which known body
/// size on, and for which content types.
#[derive(Debug, Clone)]
pub struct CompressionConfig {
    pub enabled: bool,
    pub algorithms: Vec<String>,
    pub min_bytes: u64,
    pub types: Vec<String>,
}

/// Per-route header rewrites: applied to the request before forwarding upstream
/// and to the response before returning to the client.
#[derive(Debug, Clone)]
pub struct HeaderRulesConfig {
    pub request: HeaderOpsConfig,
    pub response: HeaderOpsConfig,
}

/// `set` overwrites (or inserts) a header; `remove` deletes it. `set` is applied
/// after `remove`, entry by entry. Names/values are validated as valid HTTP header
/// tokens.
#[derive(Debug, Clone)]
pub struct HeaderOpsConfig {
    pub set: Vec<(String, String)>,
    pub remove: Vec<String>,
}

impl Default for HeaderOpsConfig {
    fn default() -> (r: Self)
        ensures
            r.set@.len() == 0,
            r.remove@.len() == 0,
    {
        HeaderOpsConfig { set: Vec::new(), remove: Vec::new() }
    }
}

impl Default for HeaderRulesConfig {
    fn default() -> (r: Self)
        ensures
            r.request.set@.len() == 0 && r.request.remove@.len() == 0,
            r.response.set@.len() == 0 && r.response.remove@.len() == 0,
    {
        HeaderRulesConfig { request: HeaderOpsConfig::default(), response: HeaderOpsConfig::default() }
    }
}

#[derive(Debug, Clone)]
pub struct MatchConfig {
    pub host: Option<String>,
    pub path_prefix: Option<String>,
}

impl Default for MatchConfig {
    fn default() -> (r: Self)
        ensures
            r.host is None,
            r.path_prefix is None,
    {
        MatchConfig { host: None, path_prefix: None }
    }
}

/// Whether an optional text is absent or empty.
pub open spec fn blank(s: Option<String>) -> bool {
    match s {
        Some(t) => t@.len() == 0,
        None => true,
    }
}

/// Whether an optional text is absent or empty.
pub fn is_blank(s: &Option<String>) -> (r: bool)
    ensures
        r == blank(*s),
{
    match s {
        Some(t) => t.as_str().is_empty(),
        None => true,
    }
}

impl MatchConfig {
    /// A match is empty when it constrains nothing — neither host nor path.
    pub fn is_empty(&self) -> (r: bool)
        ensures
            r == (blank(self.host) && blank(self.path_prefix)),
    {
        is_blank(&self.host) && is_blank(&self.path_prefix)
    }
}

#[derive(Debug, Clone)]
pub struct UpstreamConfig {
    pub name: String,
    pub load_balancing: LoadBalancing,
    pub targets: Vec<TargetConfig>,
    pub health_check: Option<HealthCheckConfig>,
    pub retries: Option<RetryConfig>,
    /// Accept any certificate of an `https` target.
    pub tls_insecure_skip_verify: bool,
}

/// Retry policy for an upstream. Off unless present and `enabled`. `attempts` is
/// the max total number of tries (>= 1). Only `methods` (default: idempotent)
/// are retried, on the conditions in `retryOn`.
#[derive(Debug, Clone)]
pub struct RetryConfig {
    pub enabled: bool,
    pub attempts: u32,
    pub methods: Vec<String>,
    pub retry_on: Vec<String>,
}

pub fn default_retry_attempts() -> (r: u32)
    ensures
        r == 2,
{
    2
}

pub fn default_retry_methods() -> (r: Vec<String>)
    ensures
        r.len() == 3,
        r@[0]@ == "GET"@,
        r@[1]@ == "HEAD"@,
        r@[2]@ == "OPTIONS"@,
{
    let mut out: Vec<String> = Vec::new();
    out.push("GET".to_string());
    out.push("HEAD".to_string());
    out.push("OPTIONS".to_string());
    out
}

pub fn default_retry_on() -> (r: Vec<String>)
    ensures
        r.len() == 2,
        r@[0]@ == "connect_error"@,
        r@[1]@ == "upstream_5xx"@,
{
    let mut out: Vec<String> = Vec::new();
    out.push("connect_error".to_string());
    out.push("upstream_5xx".to_string());
    out
}

#[derive(Debug, Clone, Copy, PartialEq, Eq, Structural)]
pub enum LoadBalancing {
    RoundRobin,
}

impl Default for LoadBalancing {
    fn default() -> (r: Self)
        ensures
            r == LoadBalancing::RoundRobin,
    {
        LoadBalancing::RoundRobin
    }
}

#[derive(Debug, Clone)]
pub struct TargetConfig {
    pub url: String,
    pub weight: u32,
}

pub fn default_weight() -> (r: u32)
    ensures
        r == 1,
{
    1
}

#[derive(Debug, Clone)]
pub struct HealthCheckConfig {
    pub enabled: bool,
    pub path: String,
    pub interval_seconds: u64,
    pub timeout_ms: u64,
    pub healthy_threshold: u32,
    pub unhealthy_threshold: u32,
}

#[derive(Debug, Clone)]
pub struct AdminConfig {
    pub enabled: bool,
    pub bind: String,
    /// Bearer token that every endpoint but `/health` asks for.
    pub token: Option<String>,
}

#[derive(Debug, Clone)]
pub struct MetricsConfig {
    pub enabled: bool,
    pub path: String,
}

}
