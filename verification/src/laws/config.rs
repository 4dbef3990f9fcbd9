//! Where the config comes from, and what the environment does to it.

use vstd::prelude::*;
use crate::error::ConfigError;
use crate::laws::texts::lemma_decimal;
use crate::model::{AdminConfig, GatePupConfig, LoadBalancing, MetricsConfig, Protocol};
use crate::resolve::{
    apply_overrides, base_config, build_from_env, lookup, parse_ms, resolve_with, BaseConfig,
    ConfigSource, Env,
};
use crate::text::{all_digits, decimal_of, is_digit, parse_decimal, split_on, trimmed};

verus! {

/// What a variable is set to: the value of the first one of its name, or nothing where
/// there is none.
pub open spec fn is_set_to(env: Env, name: Seq<char>, value: Option<String>) -> bool {
    match value {
        Some(v) => exists|i: int|
            {
                &&& 0 <= i < env.vars@.len()
                &&& (#[trigger] env.vars@[i]).0@ == name
                &&& env.vars@[i].1 == v
                &&& forall|k: int| 0 <= k < i ==> (#[trigger] env.vars@[k]).0@ != name
            },
        None => forall|i: int| 0 <= i < env.vars@.len() ==> (#[trigger] env.vars@[i]).0@ != name,
    }
}

proof fn lemma_lookup(env: Env, n: int, name: Seq<char>)
    requires
        0 <= n <= env.vars@.len(),
    ensures
        match lookup(env.vars@, n, name) {
            Some(v) => exists|i: int|
                {
                    &&& 0 <= i < n
                    &&& (#[trigger] env.vars@[i]).0@ == name
                    &&& env.vars@[i].1 == v
                    &&& forall|k: int| 0 <= k < i ==> (#[trigger] env.vars@[k]).0@ != name
                },
            None => forall|i: int| 0 <= i < n ==> (#[trigger] env.vars@[i]).0@ != name,
        },
    decreases n,
{
    if n > 0 {
        lemma_lookup(env, n - 1, name);
        if lookup(env.vars@, n - 1, name) is None && env.vars@[n - 1].0@ == name {
            assert(env.vars@[n - 1].1 == lookup(env.vars@, n, name)->0);
        }
    }
}

proof fn lemma_value(env: Env, name: Seq<char>, value: Option<String>)
    requires
        is_set_to(env, name, value),
    ensures
        env.value(name) == value,
{
    lemma_lookup(env, env.vars@.len() as int, name);
    if let (Some(v), Some(w)) = (value, env.value(name)) {
        let i = choose|i: int|
            {
                &&& 0 <= i < env.vars@.len()
                &&& (#[trigger] env.vars@[i]).0@ == name
                &&& env.vars@[i].1 == v
                &&& forall|k: int| 0 <= k < i ==> (#[trigger] env.vars@[k]).0@ != name
            };
        let j = choose|i: int|
            {
                &&& 0 <= i < env.vars@.len()
                &&& (#[trigger] env.vars@[i]).0@ == name
                &&& env.vars@[i].1 == w
                &&& forall|k: int| 0 <= k < i ==> (#[trigger] env.vars@[k]).0@ != name
            };
        assert(i == j);
    }
}

/// Of variables of one name the first counts.
pub proof fn the_first_variable_counts(env: Env, name: &str, r: Option<String>)
    requires
        call_ensures(Env::get, (&env, name), r),
    ensures
        is_set_to(env, name@, r),
{
    lemma_lookup(env, env.vars@.len() as int, name@);
}

/// The base config is the file that `GATEPUP_CONFIG` names, or else the text in
/// `GATEPUP_CONFIG_JSON`, or else the file of the command line, or else what the
/// environment describes; without a listener or an upstream there, there is none.
pub proof fn the_base_config_is_the_first_given(
    cli_path: Option<String>,
    env: Env,
    file: Option<String>,
    inline: Option<String>,
    listen: Option<String>,
    upstream: Option<String>,
    r: Result<BaseConfig, ConfigError>,
)
    requires
        call_ensures(base_config, (&cli_path, &env), r),
        is_set_to(env, "GATEPUP_CONFIG"@, file),
        is_set_to(env, "GATEPUP_CONFIG_JSON"@, inline),
        is_set_to(env, "GATEPUP_LISTEN"@, listen),
        is_set_to(env, "GATEPUP_UPSTREAM"@, upstream),
    ensures
        file matches Some(path) ==> r == Ok::<BaseConfig, ConfigError>(BaseConfig::File(path)),
        file is None ==> (inline matches Some(json) ==> r == Ok::<BaseConfig, ConfigError>(
            BaseConfig::Inline(json),
        )),
        file is None && inline is None ==> (cli_path matches Some(path) ==> r == Ok::<
            BaseConfig,
            ConfigError,
        >(BaseConfig::File(path))),
        file is None && inline is None && cli_path is None && (listen is Some || upstream is Some)
            ==> r == Ok::<BaseConfig, ConfigError>(BaseConfig::Env),
        file is None && inline is None && cli_path is None && listen is None && upstream is None
            ==> (r matches Err(e) && e is NoConfigSource),
{
    lemma_value(env, "GATEPUP_CONFIG"@, file);
    lemma_value(env, "GATEPUP_CONFIG_JSON"@, inline);
    lemma_value(env, "GATEPUP_LISTEN"@, listen);
    lemma_value(env, "GATEPUP_UPSTREAM"@, upstream);
}

/// A text that is no number: empty, or with something else than digits behind at most
/// one `+`.
pub open spec fn no_number(s: Seq<char>) -> bool {
    s.len() == 0 || exists|i: int|
        0 <= i < s.len() && !('0' <= #[trigger] s[i] <= '9') && !(i == 0 && s[i] == '+')
}

/// What is no number does not read as one.
pub proof fn lemma_no_number(s: Seq<char>, max: nat)
    requires
        no_number(s),
    ensures
        parse_decimal(s, max) is None,
{
    if s.len() > 0 {
        let i = choose|i: int|
            0 <= i < s.len() && !('0' <= #[trigger] s[i] <= '9') && !(i == 0 && s[i] == '+');
        let digits = if s[0] == '+' {
            s.drop_first()
        } else {
            s
        };
        let k = if s[0] == '+' {
            i - 1
        } else {
            i
        };
        assert(digits[k] == s[i]);
        assert(!all_digits(digits)) by {
            assert(!is_digit(digits[k]));
        }
    }
}

proof fn lemma_number(s: Seq<char>, n: nat)
    requires
        n <= u64::MAX,
    ensures
        s == decimal_of(n) ==> parse_decimal(s, u64::MAX as nat) == Some(n),
        no_number(s) ==> parse_decimal(s, u64::MAX as nat) is None,
{
    lemma_decimal(n);
    if s == decimal_of(n) {
        assert(is_digit(s[0]));
    }
    if no_number(s) {
        lemma_no_number(s, u64::MAX as nat);
    }
}

/// A number of milliseconds reads as itself, and what is no number is an error that
/// names the variable and what it holds.
pub proof fn milliseconds_are_numbers(
    var: &'static str,
    value: &str,
    n: u64,
    r: Result<u64, ConfigError>,
)
    requires
        call_ensures(parse_ms, (var, value), r),
    ensures
        value@ == decimal_of(n as nat) ==> r == Ok::<u64, ConfigError>(n),
        no_number(value@) ==> (r matches Err(e) && (e matches ConfigError::BadEnvValue {
            var: v,
            value: x,
            ..
        } && v == var && x@ == value@)),
{
    lemma_number(value@, n as nat);
}

/// Each variable that is set replaces its own setting, and nothing else changes: the log
/// level, the admin section with its token, the metrics section.
pub proof fn overrides_replace_their_settings(
    config: &mut GatePupConfig,
    env: Env,
    log: Option<String>,
    admin: Option<String>,
    token: Option<String>,
    metrics: Option<String>,
    r: Result<(), ConfigError>,
)
    requires
        call_ensures(apply_overrides, (config, &env), r),
        is_set_to(env, "GATEPUP_LOG"@, log),
        is_set_to(env, "GATEPUP_ADMIN"@, admin),
        is_set_to(env, "GATEPUP_ADMIN_TOKEN"@, token),
        is_set_to(env, "GATEPUP_METRICS_PATH"@, metrics),
    ensures
        final(config).app.log_level == (match log {
            Some(level) => level,
            None => old(config).app.log_level,
        }),
        final(config).admin == (match admin {
            Some(bind) => Some(AdminConfig { enabled: true, bind, token }),
            None => old(config).admin,
        }),
        final(config).metrics == (match metrics {
            Some(path) => Some(MetricsConfig { enabled: true, path }),
            None => old(config).metrics,
        }),
        final(config).app.name == old(config).app.name,
        final(config).listeners == old(config).listeners,
        final(config).upstreams == old(config).upstreams,
        final(config).limits == old(config).limits,
        final(config).trusted_proxies == old(config).trusted_proxies,
        final(config).compression == old(config).compression,
{
    lemma_value(env, "GATEPUP_LOG"@, log);
    lemma_value(env, "GATEPUP_ADMIN"@, admin);
    lemma_value(env, "GATEPUP_ADMIN_TOKEN"@, token);
    lemma_value(env, "GATEPUP_METRICS_PATH"@, metrics);
}

/// A timeout becomes the number that its variable holds, and stays where the variable is
/// not set. A variable that holds no number is an error that names it, the one for
/// connecting before the one for requests.
pub proof fn timeouts_are_overridden_by_numbers(
    config: &mut GatePupConfig,
    env: Env,
    connect: Option<String>,
    request: Option<String>,
    connect_ms: u64,
    request_ms: u64,
    r: Result<(), ConfigError>,
)
    requires
        call_ensures(apply_overrides, (config, &env), r),
        is_set_to(env, "GATEPUP_TIMEOUT_CONNECT_MS"@, connect),
        is_set_to(env, "GATEPUP_TIMEOUT_REQUEST_MS"@, request),
    ensures
        connect is None ==> final(config).timeouts.connect_timeout_ms
            == old(config).timeouts.connect_timeout_ms,
        request is None ==> final(config).timeouts.request_timeout_ms
            == old(config).timeouts.request_timeout_ms,
        connect matches Some(v) ==> (v@ == decimal_of(connect_ms as nat)
            ==> final(config).timeouts.connect_timeout_ms == connect_ms),
        (connect matches Some(v) ==> v@ == decimal_of(connect_ms as nat)) ==> (request matches Some(
            w,
        ) ==> (w@ == decimal_of(request_ms as nat) ==> r is Ok
            && final(config).timeouts.request_timeout_ms == request_ms)),
        (connect matches Some(v) ==> v@ == decimal_of(connect_ms as nat)) && request is None
            ==> r is Ok,
        connect matches Some(v) ==> (no_number(v@) ==> (r matches Err(e) && (
        e matches ConfigError::BadEnvValue { var, value, .. } && var
            == "GATEPUP_TIMEOUT_CONNECT_MS" && value@ == v@))),
        (connect matches Some(v) ==> v@ == decimal_of(connect_ms as nat)) ==> (request matches Some(
            w,
        ) ==> (no_number(w@) ==> (r matches Err(e) && (e matches ConfigError::BadEnvValue {
            var,
            value,
            ..
        } && var == "GATEPUP_TIMEOUT_REQUEST_MS" && value@ == w@)))),
{
    lemma_value(env, "GATEPUP_TIMEOUT_CONNECT_MS"@, connect);
    lemma_value(env, "GATEPUP_TIMEOUT_REQUEST_MS"@, request);
    if let Some(v) = connect {
        lemma_number(v@, connect_ms as nat);
    }
    if let Some(w) = request {
        lemma_number(w@, request_ms as nat);
    }
}

/// The environment describes one listener, on all addresses at port 8080 unless it says
/// otherwise, over TLS where both a certificate and a key are given.
pub proof fn simple_mode_has_one_listener(
    env: Env,
    listen: Option<String>,
    cert: Option<String>,
    key: Option<String>,
    host: Option<String>,
    r: GatePupConfig,
)
    requires
        call_ensures(build_from_env, (&env,), r),
        is_set_to(env, "GATEPUP_LISTEN"@, listen),
        is_set_to(env, "GATEPUP_TLS_CERT"@, cert),
        is_set_to(env, "GATEPUP_TLS_KEY"@, key),
        is_set_to(env, "GATEPUP_ROUTE_HOST"@, host),
    ensures
        r.listeners@.len() == 1,
        r.listeners@[0].bind@ == (match listen {
            Some(bind) => bind@,
            None => "0.0.0.0:8080"@,
        }),
        r.listeners@[0].protocol == (if cert is Some && key is Some {
            Protocol::Https
        } else {
            Protocol::Http
        }),
        match r.listeners@[0].tls {
            Some(tls) => cert == Some(tls.cert) && key == Some(tls.key),
            None => cert is None || key is None,
        },
        r.listeners@[0].routes@.len() == 1,
        r.listeners@[0].routes@[0].matcher.host == host,
        r.listeners@[0].routes@[0].matcher.path_prefix matches Some(p) && p@ == seq!['/'],
        r.listeners@[0].routes@[0].upstream@ == r.upstreams@[0].name@,
        !r.listeners@[0].routes@[0].strip_prefix,
        r.listeners@[0].routes@[0].headers is None,
        r.listeners@[0].routes@[0].ip_access is None,
        r.listeners@[0].routes@[0].rate_limit is None,
        r.listeners@[0].routes@[0].basic_auth is None,
        r.app.log_level@ == "info"@,
        r.timeouts.connect_timeout_ms == 5000,
        r.timeouts.request_timeout_ms == 30000,
        r.limits.max_body_bytes == 0,
        r.limits.header_read_timeout_ms == 15000,
        r.limits.max_header_bytes == 0,
        r.trusted_proxies@.len() == 0,
        r.compression is None && r.admin is None && r.metrics is None,
{
    lemma_value(env, "GATEPUP_LISTEN"@, listen);
    lemma_value(env, "GATEPUP_TLS_CERT"@, cert);
    lemma_value(env, "GATEPUP_TLS_KEY"@, key);
    lemma_value(env, "GATEPUP_ROUTE_HOST"@, host);
    reveal_strlit("/");
    assert("/"@ =~= seq!['/']);
}

/// The environment describes one upstream. Its targets are the pieces of a
/// comma-separated list, trimmed, in their order, without the empty ones, each of weight
/// one; it is probed where a path is given, every ten seconds for at most one, and gets
/// healthy after two successes and unhealthy after three failures.
pub proof fn simple_mode_has_one_upstream(
    env: Env,
    list: Option<String>,
    path: Option<String>,
    r: GatePupConfig,
)
    requires
        call_ensures(build_from_env, (&env,), r),
        is_set_to(env, "GATEPUP_UPSTREAM"@, list),
        is_set_to(env, "GATEPUP_HEALTHCHECK_PATH"@, path),
    ensures
        r.upstreams@.len() == 1,
        r.upstreams@[0].load_balancing == LoadBalancing::RoundRobin,
        r.upstreams@[0].retries is None,
        !r.upstreams@[0].tls_insecure_skip_verify,
        list is None ==> r.upstreams@[0].targets@.len() == 0,
        list matches Some(l) ==> Seq::new(
            r.upstreams@[0].targets@.len(),
            |i: int| r.upstreams@[0].targets@[i].url@,
        ) == split_on(l@, ',').map_values(|s: Seq<char>| trimmed(s)).filter(
            |s: Seq<char>| s.len() > 0,
        ),
        forall|i: int|
            0 <= i < r.upstreams@[0].targets@.len() ==> (#[trigger] r.upstreams@[0].targets@[i]).weight
                == 1,
        match r.upstreams@[0].health_check {
            Some(hc) => path == Some(hc.path) && hc.enabled && hc.interval_seconds == 10
                && hc.timeout_ms == 1000 && hc.healthy_threshold == 2 && hc.unhealthy_threshold
                == 3,
            None => path is None,
        },
{
    lemma_value(env, "GATEPUP_UPSTREAM"@, list);
    lemma_value(env, "GATEPUP_HEALTHCHECK_PATH"@, path);
    if let Some(l) = list {
        let targets = r.upstreams@[0].targets@;
        assert(targets.map_values(|t: crate::model::TargetConfig| t.url@) =~= Seq::new(
            targets.len(),
            |i: int| r.upstreams@[0].targets@[i].url@,
        ));
    }
}

/// Resolving gives the document that was read with the overrides on top, and says where
/// it came from; a document that could not be read is an error.
pub proof fn documents_are_resolved_with_overrides(
    cli_path: Option<String>,
    env: Env,
    document: Option<Result<GatePupConfig, ConfigError>>,
    base: Result<BaseConfig, ConfigError>,
    c: &mut GatePupConfig,
    applied: Result<(), ConfigError>,
    r: Result<(GatePupConfig, ConfigSource), ConfigError>,
)
    requires
        call_requires(resolve_with, (&cli_path, &env, document)),
        call_ensures(resolve_with, (&cli_path, &env, document), r),
        call_ensures(base_config, (&cli_path, &env), base),
        call_ensures(apply_overrides, (c, &env), applied),
    ensures
        base is Err ==> (r matches Err(e) && e is NoConfigSource),
        base matches Ok(b) ==> (b !is Env ==> (document matches Some(Err(e)) ==> r == Err::<
            (GatePupConfig, ConfigSource),
            ConfigError,
        >(e))),
        base matches Ok(b) ==> (b !is Env && document == Some(
            Ok::<GatePupConfig, ConfigError>(*old(c)),
        ) ==> ((r is Ok) == (applied is Ok)) && (r matches Ok((config, source)) ==> config
            == *final(c))),
        base matches Ok(BaseConfig::File(path)) ==> (r matches Ok((_, source)) ==> source
            == ConfigSource::File(path)),
        base matches Ok(BaseConfig::Inline(_)) ==> (r matches Ok((_, source)) ==> source
            is Inline),
        base matches Ok(BaseConfig::Env) ==> (r matches Ok((_, source)) ==> source is Env),
        base matches Ok(BaseConfig::Env) ==> (r is Ok) == (applied is Ok),
{
}

/// Where the environment is the base, what it describes is resolved, with the overrides on
/// top: one listener at its address, one upstream, and the log level that is set.
pub proof fn the_environment_is_resolved(
    cli_path: Option<String>,
    env: Env,
    document: Option<Result<GatePupConfig, ConfigError>>,
    base: Result<BaseConfig, ConfigError>,
    r: Result<(GatePupConfig, ConfigSource), ConfigError>,
    listen: Option<String>,
    list: Option<String>,
    log: Option<String>,
    admin: Option<String>,
)
    requires
        call_requires(resolve_with, (&cli_path, &env, document)),
        call_ensures(resolve_with, (&cli_path, &env, document), r),
        call_ensures(base_config, (&cli_path, &env), base),
        base == Ok::<BaseConfig, ConfigError>(BaseConfig::Env),
        is_set_to(env, "GATEPUP_LISTEN"@, listen),
        is_set_to(env, "GATEPUP_UPSTREAM"@, list),
        is_set_to(env, "GATEPUP_LOG"@, log),
        is_set_to(env, "GATEPUP_ADMIN"@, admin),
    ensures
        r matches Ok((c, source)) ==> {
            &&& source is Env
            &&& c.listeners@.len() == 1
            &&& c.listeners@[0].bind@ == (match listen {
                Some(bind) => bind@,
                None => "0.0.0.0:8080"@,
            })
            &&& c.upstreams@.len() == 1
            &&& c.listeners@[0].routes@.len() == 1
            &&& c.listeners@[0].routes@[0].upstream@ == c.upstreams@[0].name@
            &&& list is None ==> c.upstreams@[0].targets@.len() == 0
            &&& list matches Some(l) ==> c.upstreams@[0].targets@.len() == split_on(
                l@,
                ',',
            ).map_values(|s: Seq<char>| trimmed(s)).filter(|s: Seq<char>| s.len() > 0).len()
            &&& c.app.log_level@ == (match log {
                Some(level) => level@,
                None => "info"@,
            })
            &&& c.admin is Some == admin is Some
        },
{
    lemma_value(env, "GATEPUP_LISTEN"@, listen);
    lemma_value(env, "GATEPUP_UPSTREAM"@, list);
    lemma_value(env, "GATEPUP_LOG"@, log);
    lemma_value(env, "GATEPUP_ADMIN"@, admin);
    if let Ok((c, source)) = r {
        if let Some(l) = list {
            let targets = c.upstreams@[0].targets@;
            assert(targets.map_values(|t: crate::model::TargetConfig| t.url@).len()
                == targets.len());
        }
    }
}

} // verus!
