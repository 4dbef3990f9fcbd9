//! Resolve the effective config from `--config` and/or the environment.
//!
//! Precedence for the base config: `GATEPUP_CONFIG` (file path) >
//! `GATEPUP_CONFIG_JSON` (inline) > `--config` > simple env-mode
//! (`GATEPUP_LISTEN` / `GATEPUP_UPSTREAM`). Scalar overrides
//! (`GATEPUP_LOG`, `GATEPUP_ADMIN`, `GATEPUP_METRICS_PATH`,
//! `GATEPUP_TIMEOUT_*_MS`) are then applied on top. The environment comes in as a
//! plain list, and so does the document that a base config names, once it was read.

use vstd::prelude::*;
use crate::error::ConfigError;
use crate::model::{
    AdminConfig, AppConfig, GatePupConfig, HealthCheckConfig, LimitsConfig, ListenerConfig,
    LoadBalancing, MatchConfig, MetricsConfig, Protocol, RouteConfig, TargetConfig, TimeoutConfig,
    TlsConfig, UpstreamConfig,
};
use crate::net::{ipv4_of, is_octet, socket_of};
use crate::text::{
    after, before, cut, decimal_value, lemma_cut, lower, parse_decimal, parse_number, split_on,
    split_text, text_eq, texts, trim, trimmed,
};
use crate::uri::{http_url, url_of};
use crate::validator::{
    duplicate_upstreams, first_with_key, listener_named, listener_problems, listener_rules_problems,
    listeners_problems, problems, proxy_problems, retries_problems, route_named, route_problems,
    routes_problems, rules_problems, targets_problems, upstream_named, upstreams_problems,
    wildcard_host,
};

verus! {

/// Environment variables and their values.
#[derive(Debug, Clone)]
pub struct Env {
    pub vars: Vec<(String, String)>,
}

/// The value of the first variable of this name among the first `n`.
pub open spec fn lookup(vars: Seq<(String, String)>, n: int, key: Seq<char>) -> Option<String>
    decreases n,
{
    if n <= 0 {
        None
    } else {
        match lookup(vars, n - 1, key) {
            Some(v) => Some(v),
            None => if vars[n - 1].0@ == key {
                Some(vars[n - 1].1)
            } else {
                None
            },
        }
    }
}

impl Env {
    /// The value of a variable, where it is set.
    pub open spec fn value(self, key: Seq<char>) -> Option<String> {
        lookup(self.vars@, self.vars@.len() as int, key)
    }

    /// The value of a variable, where it is set.
    pub fn get(&self, key: &str) -> (r: Option<String>)
        ensures
            r == self.value(key@),
    {
        let mut i: usize = 0;
        while i < self.vars.len()
            invariant
                i <= self.vars.len(),
                lookup(self.vars@, i as int, key@) is None,
            decreases self.vars.len() - i,
        {
            let var = &self.vars[i];
            if text_eq(var.0.as_str(), key) {
                proof {
                    assert(lookup(self.vars@, i + 1, key@) == Some(var.1));
                    lemma_lookup_stays(self.vars@, i + 1, self.vars@.len() as int, key@);
                }
                return Some(var.1.clone());
            }
            i += 1;
        }
        None
    }
}

proof fn lemma_lookup_stays(vars: Seq<(String, String)>, a: int, b: int, key: Seq<char>)
    requires
        0 <= a <= b,
        lookup(vars, a, key) is Some,
    ensures
        lookup(vars, b, key) == lookup(vars, a, key),
    decreases b,
{
    if a < b {
        lemma_lookup_stays(vars, a, b - 1, key);
    }
}

/// Where the resolved config came from (used for reload + startup logging).
#[derive(Debug, Clone, PartialEq, Eq)]
pub enum ConfigSource {
    File(String),
    Inline,
    Env,
}

/// Where the base config is to be had: a file to read, a text to parse, or the
/// environment itself.
#[derive(Debug, Clone, PartialEq, Eq)]
pub enum BaseConfig {
    File(String),
    Inline(String),
    Env,
}

/// Which base config is used, the first of these: the file that `GATEPUP_CONFIG`
/// names, the text in `GATEPUP_CONFIG_JSON`, the file of the command line, or the
/// environment where a listener or an upstream is set.
pub open spec fn base_of(cli_path: Option<String>, env: Env) -> Option<BaseConfig> {
    if let Some(path) = env.value("GATEPUP_CONFIG"@) {
        Some(BaseConfig::File(path))
    } else if let Some(json) = env.value("GATEPUP_CONFIG_JSON"@) {
        Some(BaseConfig::Inline(json))
    } else if let Some(path) = cli_path {
        Some(BaseConfig::File(path))
    } else if env.value("GATEPUP_LISTEN"@) is Some || env.value("GATEPUP_UPSTREAM"@) is Some {
        Some(BaseConfig::Env)
    } else {
        None
    }
}

/// Which base config is used.
pub fn base_config(cli_path: &Option<String>, env: &Env) -> (r: Result<BaseConfig, ConfigError>)
    ensures
        match r {
            Ok(base) => base_of(*cli_path, *env) == Some(base),
            Err(e) => base_of(*cli_path, *env) is None && e is NoConfigSource,
        },
{
    if let Some(path) = env.get("GATEPUP_CONFIG") {
        return Ok(BaseConfig::File(path));
    }
    if let Some(json) = env.get("GATEPUP_CONFIG_JSON") {
        return Ok(BaseConfig::Inline(json));
    }
    if let Some(path) = cli_path {
        return Ok(BaseConfig::File(path.clone()));
    }
    if env.get("GATEPUP_LISTEN").is_some() || env.get("GATEPUP_UPSTREAM").is_some() {
        return Ok(BaseConfig::Env);
    }
    Err(ConfigError::NoConfigSource)
}

/// The target URLs of a comma-separated list: trimmed, and the empty ones left
/// out.
pub open spec fn target_urls(list: Seq<char>) -> Seq<Seq<char>> {
    split_on(list, ',').map_values(|s: Seq<char>| trimmed(s)).filter(|s: Seq<char>| s.len() > 0)
}

/// The targets for these URLs, each of weight 1.
pub open spec fn plain_targets(targets: Seq<TargetConfig>, urls: Seq<Seq<char>>) -> bool {
    &&& targets.map_values(|t: TargetConfig| t.url@) == urls
    &&& forall|i: int| 0 <= i < targets.len() ==> (#[trigger] targets[i]).weight == 1
}

/// The targets of a comma-separated list of URLs.
fn parse_targets(list: &str) -> (r: Vec<TargetConfig>)
    ensures
        plain_targets(r@, target_urls(list@)),
{
    let pieces = split_text(list, ',');
    let ghost all = split_on(list@, ',').map_values(|s: Seq<char>| trimmed(s));
    let ghost keep = |s: Seq<char>| s.len() > 0;
    let ghost url = |t: TargetConfig| t.url@;
    let mut out: Vec<TargetConfig> = Vec::new();
    let mut i: usize = 0;
    proof {
        reveal(Seq::filter);
        assert(all.take(0) == Seq::<Seq<char>>::empty());
        assert(out@.map_values(url) == all.take(0).filter(keep));
    }
    while i < pieces.len()
        invariant
            i <= pieces.len(),
            texts(pieces@) == split_on(list@, ','),
            all == split_on(list@, ',').map_values(|s: Seq<char>| trimmed(s)),
            keep == (|s: Seq<char>| s.len() > 0),
            url == (|t: TargetConfig| t.url@),
            out@.map_values(url) == all.take(i as int).filter(keep),
            forall|j: int| 0 <= j < out.len() ==> (#[trigger] out@[j]).weight == 1,
        decreases pieces.len() - i,
    {
        let piece = trim(pieces[i].as_str());
        proof {
            reveal(Seq::filter);
            assert(texts(pieces@)[i as int] == pieces@[i as int]@);
            assert(all[i as int] == piece@);
            assert(all.take(i + 1).drop_last() == all.take(i as int));
        }
        let ghost done = out@;
        if !piece.as_str().is_empty() {
            out.push(TargetConfig { url: piece, weight: 1 });
            assert(out@.map_values(url) == done.map_values(url).push(piece@));
        }
        i += 1;
    }
    assert(all.take(all.len() as int) == all);
    out
}

/// The config that the environment describes: one listener with one route to one
/// upstream.
pub open spec fn describes(env: Env, c: GatePupConfig) -> bool {
    let tls = match (env.value("GATEPUP_TLS_CERT"@), env.value("GATEPUP_TLS_KEY"@)) {
        (Some(cert), Some(key)) => Some(TlsConfig { cert, key }),
        _ => None,
    };
    let listener = c.listeners@[0];
    let route = listener.routes@[0];
    let upstream = c.upstreams@[0];
    &&& c.app.name@ == "gatepup"@
    &&& c.app.log_level@ == "info"@
    &&& c.listeners@.len() == 1
    &&& listener.name@ == "default"@
    &&& match env.value("GATEPUP_LISTEN"@) {
        Some(bind) => listener.bind == bind,
        None => listener.bind@ == "0.0.0.0:8080"@,
    }
    &&& listener.tls == tls
    &&& listener.protocol == if tls is Some {
        Protocol::Https
    } else {
        Protocol::Http
    }
    &&& listener.routes@.len() == 1
    &&& route.name@ == "default"@
    &&& route.matcher.host == env.value("GATEPUP_ROUTE_HOST"@)
    &&& route.matcher.path_prefix matches Some(p) && p@ == "/"@
    &&& route.upstream@ == "default"@
    &&& !route.strip_prefix
    &&& route.headers is None && route.ip_access is None
    &&& route.rate_limit is None && route.basic_auth is None
    &&& c.upstreams@.len() == 1
    &&& upstream.name@ == "default"@
    &&& upstream.load_balancing == LoadBalancing::RoundRobin
    &&& match env.value("GATEPUP_UPSTREAM"@) {
        Some(list) => plain_targets(upstream.targets@, target_urls(list@)),
        None => upstream.targets@.len() == 0,
    }
    &&& match env.value("GATEPUP_HEALTHCHECK_PATH"@) {
        Some(path) => upstream.health_check == Some(
            HealthCheckConfig {
                enabled: true,
                path,
                interval_seconds: 10,
                timeout_ms: 1000,
                healthy_threshold: 2,
                unhealthy_threshold: 3,
            },
        ),
        None => upstream.health_check is None,
    }
    &&& upstream.retries is None
    &&& !upstream.tls_insecure_skip_verify
    &&& c.timeouts.connect_timeout_ms == 5_000 && c.timeouts.request_timeout_ms == 30_000
    &&& c.limits.max_body_bytes == 0 && c.limits.header_read_timeout_ms == 15_000
    &&& c.limits.max_header_bytes == 0
    &&& c.trusted_proxies@.len() == 0
    &&& c.compression is None && c.admin is None && c.metrics is None
}

/// Build a minimal single-listener config from env (simple mode).
pub fn build_from_env(env: &Env) -> (r: GatePupConfig)
    ensures
        describes(*env, r),
{
    let bind = match env.get("GATEPUP_LISTEN") {
        Some(bind) => bind,
        None => "0.0.0.0:8080".to_string(),
    };
    let targets: Vec<TargetConfig> = match env.get("GATEPUP_UPSTREAM") {
        Some(list) => parse_targets(list.as_str()),
        None => Vec::new(),
    };
    let tls = match (env.get("GATEPUP_TLS_CERT"), env.get("GATEPUP_TLS_KEY")) {
        (Some(cert), Some(key)) => Some(TlsConfig { cert, key }),
        _ => None,
    };
    let protocol = if tls.is_some() {
        Protocol::Https
    } else {
        Protocol::Http
    };
    let health_check = match env.get("GATEPUP_HEALTHCHECK_PATH") {
        Some(path) => Some(
            HealthCheckConfig {
                enabled: true,
                path,
                interval_seconds: 10,
                timeout_ms: 1000,
                healthy_threshold: 2,
                unhealthy_threshold: 3,
            },
        ),
        None => None,
    };
    let mut routes: Vec<RouteConfig> = Vec::new();
    routes.push(
        RouteConfig {
            name: "default".to_string(),
            matcher: MatchConfig {
                host: env.get("GATEPUP_ROUTE_HOST"),
                path_prefix: Some("/".to_string()),
            },
            upstream: "default".to_string(),
            strip_prefix: false,
            headers: None,
            ip_access: None,
            rate_limit: None,
            basic_auth: None,
        },
    );
    let mut listeners: Vec<ListenerConfig> = Vec::new();
    listeners.push(
        ListenerConfig { name: "default".to_string(), bind, protocol, tls, routes },
    );
    let mut upstreams: Vec<UpstreamConfig> = Vec::new();
    upstreams.push(
        UpstreamConfig {
            name: "default".to_string(),
            load_balancing: LoadBalancing::RoundRobin,
            targets,
            health_check,
            retries: None,
            tls_insecure_skip_verify: false,
        },
    );
    GatePupConfig {
        app: AppConfig { name: "gatepup".to_string(), log_level: "info".to_string() },
        listeners,
        upstreams,
        timeouts: TimeoutConfig::default(),
        limits: LimitsConfig::default(),
        trusted_proxies: Vec::new(),
        compression: None,
        admin: None,
        metrics: None,
    }
}

/// A number of milliseconds, as `u64` reads it.
pub open spec fn milliseconds(value: Seq<char>) -> Option<nat> {
    parse_decimal(value, u64::MAX as nat)
}

/// The error for a variable that holds no number of milliseconds.
pub open spec fn bad_ms(e: ConfigError, var: &'static str, value: Seq<char>) -> bool {
    &&& e matches ConfigError::BadEnvValue { var: v, value: x, reason }
    &&& v == var
    &&& x@ == value
    &&& reason == "expected a non-negative integer (milliseconds)"
}

/// Read a number of milliseconds out of a variable.
pub fn parse_ms(var: &'static str, value: &str) -> (r: Result<u64, ConfigError>)
    ensures
        match r {
            Ok(n) => milliseconds(value@) == Some(n as nat),
            Err(e) => milliseconds(value@) is None && bad_ms(e, var, value@),
        },
{
    match parse_number(value, u64::MAX) {
        Some(n) => Ok(n),
        None => Err(
            ConfigError::BadEnvValue {
                var,
                value: value.to_string(),
                reason: "expected a non-negative integer (milliseconds)",
            },
        ),
    }
}

/// A timeout as a variable overrides it, where it does.
pub open spec fn overridden_ms(value: Option<String>, base: u64) -> u64 {
    match value {
        Some(v) => match milliseconds(v@) {
            Some(n) => n as u64,
            None => base,
        },
        None => base,
    }
}

/// Whether a variable that is set holds no number of milliseconds.
pub open spec fn is_bad_ms(value: Option<String>) -> bool {
    value matches Some(v) && milliseconds(v@) is None
}

/// The config with the scalar overrides of the environment on top. A variable
/// that holds no number leaves its timeout, and those that come after it, as they
/// were.
pub open spec fn overridden(env: Env, c: GatePupConfig) -> GatePupConfig {
    let connect = env.value("GATEPUP_TIMEOUT_CONNECT_MS"@);
    let request = env.value("GATEPUP_TIMEOUT_REQUEST_MS"@);
    GatePupConfig {
        app: AppConfig {
            log_level: match env.value("GATEPUP_LOG"@) {
                Some(level) => level,
                None => c.app.log_level,
            },
            ..c.app
        },
        admin: match env.value("GATEPUP_ADMIN"@) {
            Some(bind) => Some(
                AdminConfig { enabled: true, bind, token: env.value("GATEPUP_ADMIN_TOKEN"@) },
            ),
            None => c.admin,
        },
        metrics: match env.value("GATEPUP_METRICS_PATH"@) {
            Some(path) => Some(MetricsConfig { enabled: true, path }),
            None => c.metrics,
        },
        timeouts: TimeoutConfig {
            connect_timeout_ms: overridden_ms(connect, c.timeouts.connect_timeout_ms),
            request_timeout_ms: if is_bad_ms(connect) {
                c.timeouts.request_timeout_ms
            } else {
                overridden_ms(request, c.timeouts.request_timeout_ms)
            },
        },
        ..c
    }
}

/// What the overrides say of an error: the first timeout variable that holds no
/// number is named.
pub open spec fn override_error(env: Env, e: ConfigError) -> bool {
    let connect = env.value("GATEPUP_TIMEOUT_CONNECT_MS"@);
    let request = env.value("GATEPUP_TIMEOUT_REQUEST_MS"@);
    if is_bad_ms(connect) {
        bad_ms(e, "GATEPUP_TIMEOUT_CONNECT_MS", connect->0@)
    } else {
        is_bad_ms(request) && bad_ms(e, "GATEPUP_TIMEOUT_REQUEST_MS", request->0@)
    }
}

/// Whether every timeout variable that is set holds a number.
pub open spec fn overrides_ok(env: Env) -> bool {
    !is_bad_ms(env.value("GATEPUP_TIMEOUT_CONNECT_MS"@)) && !is_bad_ms(
        env.value("GATEPUP_TIMEOUT_REQUEST_MS"@),
    )
}

/// Apply unambiguous scalar env overrides on top of the base config.
pub fn apply_overrides(config: &mut GatePupConfig, env: &Env) -> (r: Result<(), ConfigError>)
    ensures
        *final(config) == overridden(*env, *old(config)),
        match r {
            Ok(_) => overrides_ok(*env),
            Err(e) => override_error(*env, e),
        },
{
    if let Some(level) = env.get("GATEPUP_LOG") {
        config.app.log_level = level;
    }
    if let Some(bind) = env.get("GATEPUP_ADMIN") {
        config.admin = Some(
            AdminConfig { enabled: true, bind, token: env.get("GATEPUP_ADMIN_TOKEN") },
        );
    }
    if let Some(path) = env.get("GATEPUP_METRICS_PATH") {
        config.metrics = Some(MetricsConfig { enabled: true, path });
    }
    if let Some(value) = env.get("GATEPUP_TIMEOUT_CONNECT_MS") {
        match parse_ms("GATEPUP_TIMEOUT_CONNECT_MS", value.as_str()) {
            Ok(ms) => {
                config.timeouts.connect_timeout_ms = ms;
            },
            Err(e) => return Err(e),
        }
    }
    if let Some(value) = env.get("GATEPUP_TIMEOUT_REQUEST_MS") {
        match parse_ms("GATEPUP_TIMEOUT_REQUEST_MS", value.as_str()) {
            Ok(ms) => {
                config.timeouts.request_timeout_ms = ms;
            },
            Err(e) => return Err(e),
        }
    }
    Ok(())
}

/// The source that goes with a base config.
pub open spec fn source_of(base: BaseConfig) -> ConfigSource {
    match base {
        BaseConfig::File(path) => ConfigSource::File(path),
        BaseConfig::Inline(_) => ConfigSource::Inline,
        BaseConfig::Env => ConfigSource::Env,
    }
}

/// `c` is the base config: the document that was read, or what the environment
/// describes.
pub open spec fn is_base(
    base: BaseConfig,
    document: Option<Result<GatePupConfig, ConfigError>>,
    env: Env,
    c: GatePupConfig,
) -> bool {
    match base {
        BaseConfig::Env => describes(env, c),
        _ => document == Some(Ok::<GatePupConfig, ConfigError>(c)),
    }
}

/// Resolve the effective (unvalidated) config. `document` is what reading the file,
/// or parsing the inline text, that [`base_config`] names gave; the environment
/// needs none. Validate the result before use.
pub fn resolve_with(
    cli_path: &Option<String>,
    env: &Env,
    document: Option<Result<GatePupConfig, ConfigError>>,
) -> (r: Result<(GatePupConfig, ConfigSource), ConfigError>)
    requires
        match base_of(*cli_path, *env) {
            Some(BaseConfig::File(_)) | Some(BaseConfig::Inline(_)) => document is Some,
            _ => true,
        },
    ensures
        match base_of(*cli_path, *env) {
            None => r matches Err(e) && e is NoConfigSource,
            Some(base) => match (base, document) {
                (BaseConfig::File(_), Some(Err(e))) | (BaseConfig::Inline(_), Some(Err(e))) => r
                    == Err::<(GatePupConfig, ConfigSource), ConfigError>(e),
                _ => match r {
                    Ok((config, source)) => overrides_ok(*env) && source == source_of(base)
                        && exists|c: GatePupConfig| #[trigger]
                        is_base(base, document, *env, c) && config == overridden(*env, c),
                    Err(e) => override_error(*env, e),
                },
            },
        },
{
    let base = match base_config(cli_path, env) {
        Ok(base) => base,
        Err(e) => return Err(e),
    };
    let (mut config, source) = match base {
        BaseConfig::Env => (build_from_env(env), ConfigSource::Env),
        BaseConfig::Inline(_) => match document {
            Some(Ok(c)) => (c, ConfigSource::Inline),
            Some(Err(e)) => return Err(e),
            None => return Err(ConfigError::NoConfigSource),
        },
        BaseConfig::File(path) => match document {
            Some(Ok(c)) => (c, ConfigSource::File(path)),
            Some(Err(e)) => return Err(e),
            None => return Err(ConfigError::NoConfigSource),
        },
    };
    assert(is_base(base, document, *env, config));
    match apply_overrides(&mut config, env) {
        Ok(_) => Ok((config, source)),
        Err(e) => Err(e),
    }
}

/// Laying the overrides on a config once more changes nothing.
pub proof fn overrides_are_idempotent(env: Env, c: GatePupConfig)
    ensures
        overridden(env, overridden(env, c)) == overridden(env, c),
{
}

/// The overrides touch the log level, the admin and metrics sections and the
/// timeouts, and nothing else.
pub proof fn overrides_keep_the_rest(env: Env, c: GatePupConfig)
    ensures
        overridden(env, c).app.name == c.app.name,
        overridden(env, c).listeners == c.listeners,
        overridden(env, c).upstreams == c.upstreams,
        overridden(env, c).limits == c.limits,
        overridden(env, c).trusted_proxies == c.trusted_proxies,
        overridden(env, c).compression == c.compression,
{
}

/// Without any of the variables that name a base config, the file of the command
/// line is the base; with `GATEPUP_CONFIG` set, it never is.
pub proof fn environment_beats_command_line(cli_path: Option<String>, env: Env)
    ensures
        env.value("GATEPUP_CONFIG"@) matches Some(p) ==> base_of(cli_path, env) == Some(
            BaseConfig::File(p),
        ),
        env.value("GATEPUP_CONFIG"@) is None ==> (env.value("GATEPUP_CONFIG_JSON"@) matches Some(j)
            ==> base_of(cli_path, env) == Some(BaseConfig::Inline(j))),
        env.value("GATEPUP_CONFIG"@) is None && env.value("GATEPUP_CONFIG_JSON"@) is None ==> (
        cli_path matches Some(p) ==> base_of(cli_path, env) == Some(BaseConfig::File(p))),
{
}

/// A text splits at its first separator.
proof fn lemma_split_first(s: Seq<char>, c: char, n: int)
    requires
        0 <= n < s.len(),
        s[n] == c,
        forall|i: int| 0 <= i < n ==> s[i] != c,
    ensures
        before(s, c) == s.take(n),
        after(s, c) == s.skip(n + 1),
        split_on(s, c) == seq![s.take(n)] + split_on(s.skip(n + 1), c),
{
    lemma_cut(s, c);
    assert(cut(s, c) == n);
}

/// `0` writes zero.
proof fn lemma_zero_octet()
    ensures
        is_octet(seq!['0']),
        split_on(seq!['0'], '.') == seq![seq!['0']],
{
    let zero = seq!['0'];
    reveal_with_fuel(decimal_value, 2);
    assert(zero.drop_last() =~= Seq::<char>::empty());
    assert(decimal_value(zero) == 0);
    lemma_cut(zero, '.');
    assert(cut(zero, '.') == 1);
}

/// `0.0.0.0` is an address.
proof fn lemma_any_address()
    ensures
        ipv4_of(seq!['0', '.', '0', '.', '0', '.', '0']) is Some,
{
    let zero = seq!['0'];
    let s0 = seq!['0', '.', '0', '.', '0', '.', '0'];
    let s1 = seq!['0', '.', '0', '.', '0'];
    let s2 = seq!['0', '.', '0'];
    lemma_zero_octet();
    lemma_split_first(s0, '.', 1);
    lemma_split_first(s1, '.', 1);
    lemma_split_first(s2, '.', 1);
    assert(s0.take(1) =~= zero && s1.take(1) =~= zero && s2.take(1) =~= zero);
    assert(s0.skip(2) =~= s1 && s1.skip(2) =~= s2 && s2.skip(2) =~= zero);
    assert(split_on(s0, '.') =~= seq![zero, zero, zero, zero]);
}

/// The default bind address parses.
proof fn lemma_default_bind()
    ensures
        socket_of("0.0.0.0:8080"@) is Some,
{
    reveal_strlit("0.0.0.0:8080");
    let s = "0.0.0.0:8080"@;
    let host = seq!['0', '.', '0', '.', '0', '.', '0'];
    let port = seq!['8', '0', '8', '0'];
    lemma_split_first(s, ':', 7);
    assert(s.take(7) =~= host);
    assert(s.skip(8) =~= port);
    assert(s.contains(':')) by {
        assert(s[7] == ':');
    }
    lemma_any_address();
    assert(decimal_value(port) == 8080) by {
        reveal_with_fuel(decimal_value, 5);
        let p3 = seq!['8', '0', '8'];
        let p2 = seq!['8', '0'];
        let p1 = seq!['8'];
        assert(port.drop_last() =~= p3);
        assert(p3.drop_last() =~= p2);
        assert(p2.drop_last() =~= p1);
        assert(p1.drop_last() =~= Seq::<char>::empty());
    }
}

/// A config that the environment describes has no problems, where what the variables
/// hold is usable: an address to listen on, at least one target URL and none that is no
/// HTTP address, a host without a stray `*`, and, where both the certificate and the key
/// are given, paths that are not empty.
pub proof fn simple_mode_validates(env: Env, c: GatePupConfig)
    requires
        describes(env, c),
        env.value("GATEPUP_LISTEN"@) matches Some(bind) ==> socket_of(bind@) is Some,
        env.value("GATEPUP_UPSTREAM"@) matches Some(list) && target_urls(list@).len() > 0
            && forall|i: int|
            0 <= i < target_urls(list@).len() ==> http_url(
                url_of(#[trigger] target_urls(list@)[i]),
            ),
        env.value("GATEPUP_ROUTE_HOST"@) matches Some(host) ==> (host@.contains('*')
            ==> wildcard_host(host@)),
        env.value("GATEPUP_TLS_CERT"@) matches Some(cert) ==> (env.value(
            "GATEPUP_TLS_KEY"@,
        ) matches Some(key) ==> cert@.len() > 0 && key@.len() > 0),
    ensures
        problems(c).len() == 0,
{
    lemma_default_bind();
    let ups = c.upstreams@;
    let upstream = ups[0];
    let listener = c.listeners@[0];
    let urls = target_urls((env.value("GATEPUP_UPSTREAM"@)->0)@);
    assert(lower(c.app.log_level@) =~= "info"@) by {
        reveal_strlit("info");
    }
    reveal_strlit("/");
    reveal_with_fuel(duplicate_upstreams, 2);
    assert(!upstream_named(ups, 0, ups[0].name@));
    assert(upstream_named(ups, 1, listener.routes@[0].upstream@)) by {
        assert(ups[0].name@ == listener.routes@[0].upstream@);
    }
    reveal_with_fuel(first_with_key, 1);
    assert(!route_named(listener.routes@, 0, listener.routes@[0].name@));
    assert(!listener_named(c.listeners@, 0, listener.name@));
    assert(route_problems(listener, 0, ups).len() == 0);
    reveal_with_fuel(routes_problems, 2);
    assert(routes_problems(listener, 1, ups).len() == 0);
    assert(listener_problems(c.listeners@, 0, ups).len() == 0);
    reveal_with_fuel(listeners_problems, 2);
    assert(listeners_problems(c.listeners@, 1, ups).len() == 0);
    assert(upstream.targets@.len() == urls.len()) by {
        assert(upstream.targets@.map_values(|t: TargetConfig| t.url@).len() == urls.len());
    }
    assert forall|i: int| 0 <= i < upstream.targets@.len() implies http_url(
        url_of((#[trigger] upstream.targets@[i]).url@),
    ) by {
        assert(upstream.targets@.map_values(|t: TargetConfig| t.url@)[i] == urls[i]);
    }
    lemma_usable_targets(upstream, upstream.targets@.len() as int);
    reveal_with_fuel(upstreams_problems, 2);
    assert(upstreams_problems(ups, 1).len() == 0);
    reveal_with_fuel(retries_problems, 2);
    assert(retries_problems(ups, 1).len() == 0);
    assert(proxy_problems(c.trusted_proxies@, 0).len() == 0);
    reveal_with_fuel(listener_rules_problems, 2);
    reveal_with_fuel(rules_problems, 2);
    assert(rules_problems(c.listeners@, 1).len() == 0);
}

proof fn lemma_usable_targets(upstream: UpstreamConfig, n: int)
    requires
        0 <= n <= upstream.targets@.len(),
        forall|i: int|
            0 <= i < upstream.targets@.len() ==> (#[trigger] upstream.targets@[i]).weight == 1
                && http_url(url_of(upstream.targets@[i].url@)),
    ensures
        targets_problems(upstream, n).len() == 0,
    decreases n,
{
    if n > 0 {
        lemma_usable_targets(upstream, n - 1);
        assert(upstream.targets@[n - 1].weight == 1);
    }
}

}
