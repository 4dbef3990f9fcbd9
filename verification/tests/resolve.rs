//! Where the configuration comes from and what the environment overrides.

use gatepup::error::ConfigError;
use gatepup::model::{
    AppConfig, GatePupConfig, LimitsConfig, ListenerConfig, LoadBalancing, MatchConfig, Protocol,
    RouteConfig, TargetConfig, TimeoutConfig, UpstreamConfig,
};
use gatepup::resolve::{
    apply_overrides, base_config, build_from_env, parse_ms, resolve_with, BaseConfig, ConfigSource,
    Env,
};
use gatepup::validator::validate;

fn env(pairs: &[(&str, &str)]) -> Env {
    Env {
        vars: pairs
            .iter()
            .map(|(k, v)| (k.to_string(), v.to_string()))
            .collect(),
    }
}

fn text(value: &serde_json::Value) -> String {
    value.as_str().unwrap().to_string()
}

/// Reads a document with one listener, one route, one upstream and one target.
fn parse(json: &str) -> GatePupConfig {
    let doc: serde_json::Value = serde_json::from_str(json).unwrap();
    let listener = &doc["listeners"][0];
    let route = &listener["routes"][0];
    let upstream = &doc["upstreams"][0];
    GatePupConfig {
        app: AppConfig {
            name: text(&doc["app"]["name"]),
            log_level: "info".to_string(),
        },
        listeners: vec![ListenerConfig {
            name: text(&listener["name"]),
            bind: text(&listener["bind"]),
            protocol: Protocol::Http,
            tls: None,
            routes: vec![RouteConfig {
                name: text(&route["name"]),
                matcher: MatchConfig {
                    host: None,
                    path_prefix: Some(text(&route["match"]["pathPrefix"])),
                },
                upstream: text(&route["upstream"]),
                strip_prefix: false,
                headers: None,
                ip_access: None,
                rate_limit: None,
                basic_auth: None,
            }],
        }],
        upstreams: vec![UpstreamConfig {
            name: text(&upstream["name"]),
            load_balancing: LoadBalancing::RoundRobin,
            targets: vec![TargetConfig {
                url: text(&upstream["targets"][0]["url"]),
                weight: 1,
            }],
            health_check: None,
            retries: None,
            tls_insecure_skip_verify: false,
        }],
        timeouts: TimeoutConfig::default(),
        limits: LimitsConfig::default(),
        trusted_proxies: Vec::new(),
        compression: None,
        admin: None,
        metrics: None,
    }
}

const DOCUMENT: &str = r#"{"app":{"name":"inline"},"listeners":[{"name":"l","bind":"0.0.0.0:80","routes":[{"name":"r","match":{"pathPrefix":"/"},"upstream":"u"}]}],"upstreams":[{"name":"u","targets":[{"url":"http://a:1"}]}]}"#;

#[test]
fn no_source_errors() {
    let get = env(&[]);
    assert!(matches!(
        resolve_with(&None, &get, None),
        Err(ConfigError::NoConfigSource)
    ));
}

#[test]
fn simple_mode_builds_and_validates() {
    let get = env(&[
        ("GATEPUP_LISTEN", "0.0.0.0:80"),
        ("GATEPUP_UPSTREAM", "http://a:1, http://b:2"),
        ("GATEPUP_ROUTE_HOST", "ex.com"),
    ]);
    let (cfg, source) = resolve_with(&None, &get, None).unwrap();
    assert_eq!(source, ConfigSource::Env);
    assert_eq!(cfg.listeners[0].bind, "0.0.0.0:80");
    assert_eq!(cfg.upstreams[0].targets.len(), 2);
    assert_eq!(
        cfg.listeners[0].routes[0].matcher.host.as_deref(),
        Some("ex.com")
    );
    validate(&cfg).expect("env-built config should validate");
}

#[test]
fn scalar_overrides_apply() {
    let get = env(&[
        ("GATEPUP_UPSTREAM", "http://a:1"),
        ("GATEPUP_LOG", "debug"),
        ("GATEPUP_ADMIN", "127.0.0.1:9090"),
        ("GATEPUP_METRICS_PATH", "/m"),
        ("GATEPUP_TIMEOUT_REQUEST_MS", "5000"),
    ]);
    let (cfg, _) = resolve_with(&None, &get, None).unwrap();
    assert_eq!(cfg.app.log_level, "debug");
    assert_eq!(cfg.admin.unwrap().bind, "127.0.0.1:9090");
    assert_eq!(cfg.metrics.unwrap().path, "/m");
    assert_eq!(cfg.timeouts.request_timeout_ms, 5000);
}

#[test]
fn simple_mode_https_when_tls_set() {
    let get = env(&[
        ("GATEPUP_UPSTREAM", "http://a:1"),
        ("GATEPUP_TLS_CERT", "/c.pem"),
        ("GATEPUP_TLS_KEY", "/k.pem"),
    ]);
    let (cfg, _) = resolve_with(&None, &get, None).unwrap();
    assert_eq!(cfg.listeners[0].protocol, Protocol::Https);
    assert!(cfg.listeners[0].tls.is_some());
}

#[test]
fn a_certificate_without_a_key_is_no_tls() {
    for (name, value) in [("GATEPUP_TLS_CERT", ""), ("GATEPUP_TLS_KEY", "")] {
        let get = env(&[("GATEPUP_UPSTREAM", "http://a:1"), (name, value)]);
        let (cfg, _) = resolve_with(&None, &get, None).unwrap();
        assert_eq!(cfg.listeners[0].protocol, Protocol::Http);
        assert!(cfg.listeners[0].tls.is_none());
        validate(&cfg).expect("env-built config should validate");
    }
}

#[test]
fn inline_json_wins_over_cli_path() {
    let json = r#"{"app":{"name":"inline"},"listeners":[{"name":"l","bind":"0.0.0.0:80","routes":[{"name":"r","match":{"pathPrefix":"/"},"upstream":"u"}]}],"upstreams":[{"name":"u","targets":[{"url":"http://a:1"}]}]}"#;
    let get = env(&[("GATEPUP_CONFIG_JSON", json)]);
    let cli = Some("/no/such.json".to_string());
    let document = match base_config(&cli, &get).unwrap() {
        BaseConfig::Inline(inline) => parse(&inline),
        _ => panic!("the inline document is the base"),
    };
    let (cfg, source) = resolve_with(&cli, &get, Some(Ok(document))).unwrap();
    assert_eq!(source, ConfigSource::Inline);
    assert_eq!(cfg.app.name, "inline");
}

#[test]
fn bad_timeout_env_is_named_error() {
    let get = env(&[
        ("GATEPUP_UPSTREAM", "http://a:1"),
        ("GATEPUP_TIMEOUT_CONNECT_MS", "soon"),
    ]);
    assert!(matches!(
        resolve_with(&None, &get, None),
        Err(ConfigError::BadEnvValue {
            var: "GATEPUP_TIMEOUT_CONNECT_MS",
            ..
        })
    ));
}

#[test]
fn command_line_names_the_file() {
    let cli = Some("/etc/gatepup.json".to_string());
    let get = env(&[("GATEPUP_UPSTREAM", "http://a:1")]);
    let (cfg, source) = resolve_with(&cli, &get, Some(Ok(parse(DOCUMENT)))).unwrap();
    assert_eq!(source, ConfigSource::File("/etc/gatepup.json".to_string()));
    assert_eq!(cfg.app.name, "inline");
}

#[test]
fn environment_path_wins_over_cli_path() {
    let cli = Some("/cli.json".to_string());
    let get = env(&[("GATEPUP_CONFIG", "/env.json")]);
    let (_, source) = resolve_with(&cli, &get, Some(Ok(parse(DOCUMENT)))).unwrap();
    assert_eq!(source, ConfigSource::File("/env.json".to_string()));
}

#[test]
fn document_errors_are_passed_on() {
    let cli = Some("/cli.json".to_string());
    let error = ConfigError::Read {
        path: "/cli.json".to_string(),
        message: "gone".to_string(),
    };
    let result = resolve_with(&cli, &env(&[]), Some(Err(error.clone())));
    assert_eq!(result.unwrap_err(), error);
}

#[test]
fn overrides_hold_when_applied_again() {
    let get = env(&[
        ("GATEPUP_LOG", "warn"),
        ("GATEPUP_TIMEOUT_CONNECT_MS", "7"),
    ]);
    let mut once = parse(DOCUMENT);
    assert_eq!(apply_overrides(&mut once, &get), Ok(()));
    let mut twice = once.clone();
    assert_eq!(apply_overrides(&mut twice, &get), Ok(()));
    assert_eq!(format!("{:?}", once), format!("{:?}", twice));
    assert_eq!(once.app.log_level, "warn");
    assert_eq!(once.timeouts.connect_timeout_ms, 7);
    assert_eq!(once.app.name, "inline");
    assert_eq!(once.timeouts.request_timeout_ms, 30_000);
}

#[test]
fn environment_gives_one_listener_and_one_upstream() {
    let cfg = build_from_env(&env(&[("GATEPUP_UPSTREAM", "http://a:1,, http://b:2 ")]));
    assert_eq!(cfg.listeners.len(), 1);
    assert_eq!(cfg.listeners[0].protocol, Protocol::Http);
    assert_eq!(cfg.upstreams.len(), 1);
    let urls: Vec<&str> = cfg.upstreams[0]
        .targets
        .iter()
        .map(|t| t.url.as_str())
        .collect();
    assert_eq!(urls, vec!["http://a:1", "http://b:2"]);
    assert_eq!(
        cfg.listeners[0].routes[0].matcher.path_prefix.as_deref(),
        Some("/")
    );
    assert_eq!(cfg.listeners[0].routes[0].upstream, cfg.upstreams[0].name);
}

#[test]
fn milliseconds_are_unsigned_decimals() {
    assert_eq!(parse_ms("GATEPUP_TIMEOUT_CONNECT_MS", "250"), Ok(250));
    assert_eq!(
        parse_ms("GATEPUP_TIMEOUT_CONNECT_MS", "18446744073709551615"),
        Ok(u64::MAX)
    );
    for bad in ["", "-1", "1.5", "18446744073709551616", "0x10"] {
        assert!(matches!(
            parse_ms("GATEPUP_TIMEOUT_CONNECT_MS", bad),
            Err(ConfigError::BadEnvValue { value, .. }) if value == bad
        ));
    }
}
