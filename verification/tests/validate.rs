//! What `validate` accepts, and what it reports of a document it refuses.

use gatepup::error::ValidationError;
use gatepup::model::{
    AppConfig, BasicAuthConfig, GatePupConfig, HeaderOpsConfig, HeaderRulesConfig,
    HealthCheckConfig, IpAccessConfig, LimitsConfig, ListenerConfig, LoadBalancing, MatchConfig,
    Protocol, RetryConfig, RouteConfig, TargetConfig, TimeoutConfig, TlsConfig, UpstreamConfig,
    AdminConfig,
};
use gatepup::validator::{effective_prefix, is_valid_wildcard_host, validate};

fn target(url: &str) -> TargetConfig {
    TargetConfig {
        url: url.to_string(),
        weight: 1,
    }
}

fn upstream(name: &str, targets: Vec<TargetConfig>) -> UpstreamConfig {
    UpstreamConfig {
        name: name.to_string(),
        load_balancing: LoadBalancing::RoundRobin,
        targets,
        health_check: None,
        retries: None,
        tls_insecure_skip_verify: false,
    }
}

fn route(name: &str, host: &str, upstream: &str) -> RouteConfig {
    RouteConfig {
        name: name.to_string(),
        matcher: MatchConfig {
            host: Some(host.to_string()),
            path_prefix: Some("/".to_string()),
        },
        upstream: upstream.to_string(),
        strip_prefix: false,
        headers: None,
        ip_access: None,
        rate_limit: None,
        basic_auth: None,
    }
}

fn valid_config() -> GatePupConfig {
    GatePupConfig {
        app: AppConfig {
            name: "gatepup".to_string(),
            log_level: "info".to_string(),
        },
        listeners: vec![ListenerConfig {
            name: "public".to_string(),
            bind: "0.0.0.0:80".to_string(),
            protocol: Protocol::Http,
            tls: None,
            routes: vec![route("api", "api.example.com", "api")],
        }],
        upstreams: vec![upstream("api", vec![target("http://api-1:4000")])],
        timeouts: TimeoutConfig::default(),
        limits: LimitsConfig::default(),
        trusted_proxies: Vec::new(),
        compression: None,
        admin: None,
        metrics: None,
    }
}

#[test]
fn accepts_a_valid_config() {
    assert_eq!(validate(&valid_config()), Ok(()));
}

#[test]
fn rejects_unknown_upstream() {
    let mut cfg = valid_config();
    cfg.listeners[0].routes[0].upstream = "missing".to_string();
    let errors = validate(&cfg).unwrap_err();
    assert!(errors.contains(&ValidationError::UnknownUpstream {
        route: "api".to_string(),
        upstream: "missing".to_string(),
    }));
}

#[test]
fn rejects_duplicate_upstream_names() {
    let mut cfg = valid_config();
    cfg.upstreams
        .push(upstream("api", vec![target("http://api-2:4000")]));
    let errors = validate(&cfg).unwrap_err();
    assert!(errors.contains(&ValidationError::DuplicateUpstreamName("api".to_string())));
}

#[test]
fn rejects_duplicate_route_names_in_listener() {
    let mut cfg = valid_config();
    cfg.listeners[0]
        .routes
        .push(route("api", "other.example.com", "api"));
    let errors = validate(&cfg).unwrap_err();
    assert!(errors.contains(&ValidationError::DuplicateRouteName {
        listener: "public".to_string(),
        route: "api".to_string(),
    }));
}

#[test]
fn rejects_invalid_bind() {
    let mut cfg = valid_config();
    cfg.listeners[0].bind = "not-an-address".to_string();
    let errors = validate(&cfg).unwrap_err();
    assert!(errors.contains(&ValidationError::InvalidBind {
        listener: "public".to_string(),
        bind: "not-an-address".to_string(),
    }));
}

#[test]
fn rejects_empty_targets() {
    let mut cfg = valid_config();
    cfg.upstreams[0].targets.clear();
    let errors = validate(&cfg).unwrap_err();
    assert!(errors.contains(&ValidationError::EmptyTargets {
        upstream: "api".to_string(),
    }));
}

#[test]
fn rejects_invalid_target_url() {
    let mut cfg = valid_config();
    cfg.upstreams[0].targets[0].url = "://broken".to_string();
    let errors = validate(&cfg).unwrap_err();
    assert!(errors.contains(&ValidationError::InvalidTargetUrl {
        upstream: "api".to_string(),
        url: "://broken".to_string(),
    }));
}

#[test]
fn rejects_empty_route_match() {
    let mut cfg = valid_config();
    cfg.listeners[0].routes[0].matcher = MatchConfig::default();
    let errors = validate(&cfg).unwrap_err();
    assert!(errors.contains(&ValidationError::EmptyRouteMatch {
        listener: "public".to_string(),
        route: "api".to_string(),
    }));
}

#[test]
fn rejects_health_timeout_not_less_than_interval() {
    let mut cfg = valid_config();
    cfg.upstreams[0].health_check = Some(HealthCheckConfig {
        enabled: true,
        path: "/health".to_string(),
        interval_seconds: 1,
        timeout_ms: 2000,
        healthy_threshold: 2,
        unhealthy_threshold: 3,
    });
    let errors = validate(&cfg).unwrap_err();
    assert!(
        errors.contains(&ValidationError::HealthTimeoutNotLessThanInterval {
            upstream: "api".to_string(),
            timeout_ms: 2000,
            interval_ms: 1000,
        })
    );
}

#[test]
fn rejects_invalid_log_level() {
    let mut cfg = valid_config();
    cfg.app.log_level = "verbose".to_string();
    let errors = validate(&cfg).unwrap_err();
    assert!(errors.contains(&ValidationError::InvalidLogLevel {
        value: "verbose".to_string(),
    }));
}

#[test]
fn accepts_log_level_case_insensitively() {
    let mut cfg = valid_config();
    cfg.app.log_level = "INFO".to_string();
    assert_eq!(validate(&cfg), Ok(()));
}

#[test]
fn rejects_path_prefix_without_leading_slash() {
    let mut cfg = valid_config();
    cfg.listeners[0].routes[0].matcher.path_prefix = Some("api".to_string());
    let errors = validate(&cfg).unwrap_err();
    assert!(errors.contains(&ValidationError::InvalidPathPrefix {
        listener: "public".to_string(),
        route: "api".to_string(),
        prefix: "api".to_string(),
    }));
}

#[test]
fn accepts_valid_wildcard_host() {
    let mut cfg = valid_config();
    cfg.listeners[0].routes[0].matcher.host = Some("*.example.com".to_string());
    assert_eq!(validate(&cfg), Ok(()));
}

#[test]
fn rejects_invalid_wildcard_host() {
    let mut cfg = valid_config();
    cfg.listeners[0].routes[0].matcher.host = Some("api.*.com".to_string());
    let errors = validate(&cfg).unwrap_err();
    assert!(errors.contains(&ValidationError::InvalidWildcardHost {
        listener: "public".to_string(),
        route: "api".to_string(),
        host: "api.*.com".to_string(),
    }));
}

#[test]
fn rejects_conflicting_routes_with_same_match() {
    let mut cfg = valid_config();
    // Second route, different name, identical host + path prefix.
    cfg.listeners[0]
        .routes
        .push(route("api2", "api.example.com", "api"));
    let errors = validate(&cfg).unwrap_err();
    assert!(errors.contains(&ValidationError::ConflictingRoutes {
        listener: "public".to_string(),
        first: "api".to_string(),
        second: "api2".to_string(),
    }));
}

#[test]
fn rejects_zero_weight_target() {
    let mut cfg = valid_config();
    cfg.upstreams[0].targets[0].weight = 0;
    let errors = validate(&cfg).unwrap_err();
    assert!(errors.contains(&ValidationError::ZeroWeight {
        upstream: "api".to_string(),
        url: "http://api-1:4000".to_string(),
    }));
}

#[test]
fn accepts_https_listener_with_tls() {
    let mut cfg = valid_config();
    cfg.listeners[0].protocol = Protocol::Https;
    cfg.listeners[0].tls = Some(TlsConfig {
        cert: "/c.pem".to_string(),
        key: "/k.pem".to_string(),
    });
    assert_eq!(validate(&cfg), Ok(()));
}

#[test]
fn rejects_https_without_tls() {
    let mut cfg = valid_config();
    cfg.listeners[0].protocol = Protocol::Https;
    let errors = validate(&cfg).unwrap_err();
    assert!(errors.contains(&ValidationError::MissingTls {
        listener: "public".to_string(),
    }));
}

#[test]
fn rejects_http_listener_with_tls() {
    let mut cfg = valid_config();
    cfg.listeners[0].tls = Some(TlsConfig {
        cert: "/c.pem".to_string(),
        key: "/k.pem".to_string(),
    });
    let errors = validate(&cfg).unwrap_err();
    assert!(errors.contains(&ValidationError::UnexpectedTls {
        listener: "public".to_string(),
    }));
}

#[test]
fn rejects_empty_tls_paths() {
    let mut cfg = valid_config();
    cfg.listeners[0].protocol = Protocol::Https;
    cfg.listeners[0].tls = Some(TlsConfig {
        cert: String::new(),
        key: String::new(),
    });
    let errors = validate(&cfg).unwrap_err();
    assert!(errors.contains(&ValidationError::EmptyTlsPath {
        listener: "public".to_string(),
        field: "cert",
    }));
    assert!(errors.contains(&ValidationError::EmptyTlsPath {
        listener: "public".to_string(),
        field: "key",
    }));
}

fn enabled_retries(attempts: u32, methods: &[&str], retry_on: &[&str]) -> RetryConfig {
    RetryConfig {
        enabled: true,
        attempts,
        methods: methods.iter().map(|m| m.to_string()).collect(),
        retry_on: retry_on.iter().map(|c| c.to_string()).collect(),
    }
}

#[test]
fn accepts_valid_retries() {
    let mut cfg = valid_config();
    cfg.upstreams[0].retries = Some(enabled_retries(
        2,
        &["GET", "HEAD"],
        &["connect_error", "upstream_5xx"],
    ));
    assert_eq!(validate(&cfg), Ok(()));
}

#[test]
fn disabled_retries_skip_validation() {
    let mut cfg = valid_config();
    // Bogus contents but disabled -> not validated.
    cfg.upstreams[0].retries = Some(RetryConfig {
        enabled: false,
        attempts: 0,
        methods: vec!["NOPE".to_string()],
        retry_on: vec!["bogus".to_string()],
    });
    assert_eq!(validate(&cfg), Ok(()));
}

#[test]
fn rejects_zero_retry_attempts() {
    let mut cfg = valid_config();
    cfg.upstreams[0].retries = Some(enabled_retries(0, &["GET"], &["connect_error"]));
    let errors = validate(&cfg).unwrap_err();
    assert!(errors.contains(&ValidationError::InvalidRetryAttempts {
        upstream: "api".to_string(),
    }));
}

#[test]
fn rejects_invalid_retry_method() {
    let mut cfg = valid_config();
    cfg.upstreams[0].retries = Some(enabled_retries(2, &["FETCH"], &["connect_error"]));
    let errors = validate(&cfg).unwrap_err();
    assert!(errors.contains(&ValidationError::InvalidRetryMethod {
        upstream: "api".to_string(),
        method: "FETCH".to_string(),
    }));
}

#[test]
fn rejects_invalid_retry_on_condition() {
    let mut cfg = valid_config();
    cfg.upstreams[0].retries = Some(enabled_retries(2, &["GET"], &["upstream_4xx"]));
    let errors = validate(&cfg).unwrap_err();
    assert!(errors.contains(&ValidationError::InvalidRetryOn {
        upstream: "api".to_string(),
        value: "upstream_4xx".to_string(),
    }));
}

#[test]
fn rejects_zero_timeouts() {
    let mut cfg = valid_config();
    cfg.timeouts.request_timeout_ms = 0;
    let errors = validate(&cfg).unwrap_err();
    assert!(errors.contains(&ValidationError::ZeroTimeout {
        field: "requestTimeoutMs",
    }));
}

#[test]
fn reports_multiple_errors_at_once() {
    let mut cfg = valid_config();
    cfg.listeners[0].bind = "bad".to_string();
    cfg.upstreams[0].targets.clear();
    let errors = validate(&cfg).unwrap_err();
    assert!(errors.len() >= 2);
}

#[test]
fn reports_problems_in_document_order() {
    let mut cfg = valid_config();
    cfg.app.log_level = "loud".to_string();
    cfg.listeners[0].bind = "bad".to_string();
    cfg.upstreams[0].targets.clear();
    cfg.timeouts.connect_timeout_ms = 0;
    assert_eq!(
        validate(&cfg),
        Err(vec![
            ValidationError::InvalidLogLevel {
                value: "loud".to_string(),
            },
            ValidationError::InvalidBind {
                listener: "public".to_string(),
                bind: "bad".to_string(),
            },
            ValidationError::EmptyTargets {
                upstream: "api".to_string(),
            },
            ValidationError::ZeroTimeout {
                field: "connectTimeoutMs",
            },
        ])
    );
}

#[test]
fn rejects_duplicate_listener_names() {
    let mut cfg = valid_config();
    let second = cfg.listeners[0].clone();
    cfg.listeners.push(second);
    assert_eq!(
        validate(&cfg),
        Err(vec![ValidationError::DuplicateListenerName(
            "public".to_string()
        )])
    );
}

#[test]
fn rejects_invalid_admin_bind() {
    let mut cfg = valid_config();
    cfg.admin = Some(AdminConfig {
        enabled: true,
        bind: "localhost:9090".to_string(),
        token: None,
    });
    assert_eq!(
        validate(&cfg),
        Err(vec![ValidationError::InvalidAdminBind {
            bind: "localhost:9090".to_string(),
        }])
    );
}

#[test]
fn rejects_empty_retry_lists() {
    let mut cfg = valid_config();
    cfg.upstreams[0].retries = Some(enabled_retries(2, &[], &[]));
    assert_eq!(
        validate(&cfg),
        Err(vec![
            ValidationError::EmptyRetryList {
                upstream: "api".to_string(),
                field: "methods",
            },
            ValidationError::EmptyRetryList {
                upstream: "api".to_string(),
                field: "retryOn",
            },
        ])
    );
}

#[test]
fn rejects_small_header_limit() {
    let mut cfg = valid_config();
    cfg.limits.max_header_bytes = 8191;
    assert_eq!(
        validate(&cfg),
        Err(vec![ValidationError::MaxHeaderBytesTooSmall { value: 8191 }])
    );
    cfg.limits.max_header_bytes = 8192;
    assert_eq!(validate(&cfg), Ok(()));
    cfg.limits.max_header_bytes = 0;
    assert_eq!(validate(&cfg), Ok(()));
}

#[test]
fn rejects_trusted_proxy_that_is_no_network() {
    let mut cfg = valid_config();
    cfg.trusted_proxies = vec![
        "10.0.0.0/8".to_string(),
        "::1".to_string(),
        "proxy.local".to_string(),
    ];
    assert_eq!(
        validate(&cfg),
        Err(vec![ValidationError::InvalidTrustedProxy {
            value: "proxy.local".to_string(),
        }])
    );
}

#[test]
fn rejects_ip_access_entry_that_is_no_network() {
    let mut cfg = valid_config();
    cfg.listeners[0].routes[0].ip_access = Some(IpAccessConfig {
        allow: vec!["10.0.0.0/8".to_string()],
        deny: vec!["10.0.0.0/99".to_string()],
    });
    assert_eq!(
        validate(&cfg),
        Err(vec![ValidationError::InvalidIpAccess {
            listener: "public".to_string(),
            route: "api".to_string(),
            value: "10.0.0.0/99".to_string(),
        }])
    );
}

#[test]
fn rejects_header_rules_that_are_no_headers() {
    let mut cfg = valid_config();
    cfg.listeners[0].routes[0].headers = Some(HeaderRulesConfig {
        request: HeaderOpsConfig {
            set: vec![("x-good".to_string(), "line\nbreak".to_string())],
            remove: vec!["bad name".to_string()],
        },
        response: HeaderOpsConfig::default(),
    });
    let errors = validate(&cfg).unwrap_err();
    assert_eq!(errors.len(), 2);
    assert!(errors.contains(&ValidationError::InvalidHeaderName {
        listener: "public".to_string(),
        route: "api".to_string(),
        name: "bad name".to_string(),
    }));
    assert!(errors.contains(&ValidationError::InvalidHeaderValue {
        listener: "public".to_string(),
        route: "api".to_string(),
        name: "x-good".to_string(),
    }));
}

#[test]
fn credentials_need_no_validation() {
    let mut cfg = valid_config();
    cfg.listeners[0].routes[0].basic_auth = Some(BasicAuthConfig { users: Vec::new() });
    assert_eq!(validate(&cfg), Ok(()));
}

#[test]
fn health_interval_saturates() {
    let mut cfg = valid_config();
    cfg.upstreams[0].health_check = Some(HealthCheckConfig {
        enabled: true,
        path: "/health".to_string(),
        interval_seconds: u64::MAX,
        timeout_ms: u64::MAX,
        healthy_threshold: 2,
        unhealthy_threshold: 3,
    });
    assert_eq!(
        validate(&cfg),
        Err(vec![ValidationError::HealthTimeoutNotLessThanInterval {
            upstream: "api".to_string(),
            timeout_ms: u64::MAX,
            interval_ms: u64::MAX,
        }])
    );
    cfg.upstreams[0].health_check.as_mut().unwrap().timeout_ms = u64::MAX - 1;
    assert_eq!(validate(&cfg), Ok(()));
}

#[test]
fn routes_without_prefix_conflict_with_root() {
    let mut cfg = valid_config();
    let mut second = route("second", "api.example.com", "api");
    second.matcher.path_prefix = Some(String::new());
    cfg.listeners[0].routes.push(second);
    let mut third = route("third", "api.example.com", "api");
    third.matcher.path_prefix = None;
    cfg.listeners[0].routes.push(third);
    assert_eq!(
        validate(&cfg),
        Err(vec![
            ValidationError::ConflictingRoutes {
                listener: "public".to_string(),
                first: "api".to_string(),
                second: "second".to_string(),
            },
            ValidationError::ConflictingRoutes {
                listener: "public".to_string(),
                first: "api".to_string(),
                second: "third".to_string(),
            },
        ])
    );
}

#[test]
fn wildcard_hosts_have_one_leading_star() {
    assert!(is_valid_wildcard_host("*.example.com"));
    assert!(!is_valid_wildcard_host("*."));
    assert!(!is_valid_wildcard_host("*example.com"));
    assert!(!is_valid_wildcard_host("*.*.com"));
    assert!(!is_valid_wildcard_host("example.com"));
}

#[test]
fn prefix_defaults_to_root() {
    assert_eq!(effective_prefix(&MatchConfig::default()), "/");
    let mut matcher = MatchConfig::default();
    matcher.path_prefix = Some(String::new());
    assert_eq!(effective_prefix(&matcher), "/");
    matcher.path_prefix = Some("/v1".to_string());
    assert_eq!(effective_prefix(&matcher), "/v1");
}
