//! A request's way through the gateway, and the snapshot that it goes by.

use gatepup::admin::{metrics_reply, AdminState};
use gatepup::compress::Encoding;
use gatepup::error::{ConfigError, CoreError, ProxyError, ValidationError};
use gatepup::gateway::GatewayError;
use gatepup::health::HealthState;
use gatepup::metrics::Metrics;
use gatepup::model::{
    AdminConfig, AppConfig, BasicAuthConfig, CompressionConfig, GatePupConfig, HeaderOpsConfig,
    HeaderRulesConfig, HealthCheckConfig, IpAccessConfig, LimitsConfig, ListenerConfig,
    LoadBalancing, MatchConfig, MetricsConfig, Protocol, RateLimitConfig, RetryConfig, RouteConfig,
    TargetConfig, TimeoutConfig, TlsConfig, UpstreamConfig,
};
use gatepup::net::{parse_ip, parse_socket_address, IpAddress};
use gatepup::proxy::{
    accepted_encodings, finish_response, plan_forward, plan_upgrade, screen, settle_upgrade,
    try_finish_response, try_plan_forward, try_plan_upgrade,
    Admitted, BodyEvent, BodyKind, Forwarding, Outcome, ReadAhead, RequestHead, Step,
    UpgradeOutcome, UpgradeVerdict, Verdict,
};
use gatepup::rate_limit::RateLimiter;
use gatepup::service::{admin_state, load_validated, reload_snapshot};
use gatepup::snapshot::{build_reload_snapshot, build_snapshot, RuntimeConfig};
use gatepup::upstream::RetryPolicy;
use http::{header, HeaderMap, HeaderValue};

fn config() -> GatePupConfig {
    GatePupConfig {
        app: AppConfig {
            name: "gatepup".to_string(),
            log_level: "info".to_string(),
        },
        listeners: vec![ListenerConfig {
            name: "public".to_string(),
            bind: "127.0.0.1:8080".to_string(),
            protocol: Protocol::Http,
            tls: None,
            routes: vec![RouteConfig {
                name: "api".to_string(),
                matcher: MatchConfig {
                    host: Some("api.example.com".to_string()),
                    path_prefix: Some("/".to_string()),
                },
                upstream: "api".to_string(),
                strip_prefix: false,
                headers: None,
                ip_access: None,
                rate_limit: None,
                basic_auth: None,
            }],
        }],
        upstreams: vec![UpstreamConfig {
            name: "api".to_string(),
            load_balancing: LoadBalancing::RoundRobin,
            targets: vec![
                TargetConfig {
                    url: "http://a:1".to_string(),
                    weight: 1,
                },
                TargetConfig {
                    url: "http://b:2".to_string(),
                    weight: 1,
                },
            ],
            health_check: None,
            retries: None,
            tls_insecure_skip_verify: false,
        }],
        timeouts: TimeoutConfig::default(),
        limits: LimitsConfig::default(),
        trusted_proxies: Vec::new(),
        compression: None,
        admin: None,
        metrics: None,
    }
}

fn snapshot(config: &GatePupConfig) -> RuntimeConfig {
    build_reload_snapshot(config).unwrap()
}

fn head(method: &str, path: &str) -> RequestHead {
    RequestHead {
        method: method.to_string(),
        path: path.to_string(),
        path_and_query: Some(path.to_string()),
        headers: HeaderMap::new(),
    }
}

fn client() -> IpAddress {
    parse_ip("203.0.113.7").unwrap()
}

fn pass(config: &GatePupConfig, host: &str, head: &RequestHead) -> Result<Admitted, GatewayError> {
    let mut limiter = RateLimiter::new();
    screen(
        &snapshot(config),
        &mut limiter,
        "public",
        host,
        head,
        client(),
        0,
    )
}

#[test]
fn requests_find_their_upstream() {
    let to = pass(&config(), "api.example.com", &head("GET", "/users")).unwrap();
    assert_eq!((to.listener, to.route, to.upstream), (0, 0, 0));
}

#[test]
fn unmatched_hosts_are_not_found() {
    let refused = pass(&config(), "other.example.com", &head("GET", "/"));
    assert_eq!(refused.unwrap_err(), GatewayError::RouteNotFound);
}

#[test]
fn unknown_upstreams_are_missing() {
    let mut cfg = config();
    cfg.listeners[0].routes[0].upstream = "gone".to_string();
    let refused = pass(&cfg, "api.example.com", &head("GET", "/"));
    assert_eq!(refused.unwrap_err(), GatewayError::UpstreamMissing);
}

#[test]
fn blocked_addresses_are_forbidden() {
    let mut cfg = config();
    cfg.listeners[0].routes[0].ip_access = Some(IpAccessConfig {
        allow: Vec::new(),
        deny: vec!["203.0.113.0/24".to_string()],
    });
    let refused = pass(&cfg, "api.example.com", &head("GET", "/"));
    assert_eq!(refused.unwrap_err(), GatewayError::Forbidden);
}

#[test]
fn excess_requests_are_limited() {
    let mut cfg = config();
    cfg.listeners[0].routes[0].rate_limit = Some(RateLimitConfig {
        nano_requests_per_second: 1_000_000_000,
        burst: 2,
    });
    let snap = snapshot(&cfg);
    let mut limiter = RateLimiter::new();
    let h = head("GET", "/");
    let mut go = |now: u64| {
        screen(
            &snap,
            &mut limiter,
            "public",
            "api.example.com",
            &h,
            client(),
            now,
        )
    };
    assert!(go(0).is_ok());
    assert!(go(0).is_ok());
    assert_eq!(go(0).unwrap_err(), GatewayError::RateLimited);
    assert!(go(1_000_000_000).is_ok());
}

#[test]
fn credentials_are_asked_for() {
    let mut cfg = config();
    cfg.listeners[0].routes[0].basic_auth = Some(BasicAuthConfig {
        users: vec![("alice".to_string(), "secret".to_string())],
    });
    let mut h = head("GET", "/");
    let refused = pass(&cfg, "api.example.com", &h);
    assert_eq!(refused.unwrap_err(), GatewayError::Unauthorized);
    h.headers.insert(
        header::AUTHORIZATION,
        HeaderValue::from_static("Basic YWxpY2U6c2VjcmV0"),
    );
    assert!(pass(&cfg, "api.example.com", &h).is_ok());
}

fn plan(config: &GatePupConfig, h: &RequestHead) -> Result<gatepup::proxy::ForwardPlan, GatewayError> {
    let snap = snapshot(config);
    let to = Admitted {
        listener: 0,
        route: 0,
        upstream: 0,
    };
    plan_forward(
        &snap,
        to,
        h,
        "api.example.com",
        "http",
        "203.0.113.7",
        "rid-1",
    )
}

#[test]
fn forwarded_requests_are_rewritten() {
    let mut cfg = config();
    cfg.listeners[0].routes[0].matcher.path_prefix = Some("/api".to_string());
    cfg.listeners[0].routes[0].strip_prefix = true;
    cfg.listeners[0].routes[0].headers = Some(HeaderRulesConfig {
        request: HeaderOpsConfig {
            set: vec![("x-edge".to_string(), "1".to_string())],
            remove: vec!["x-forwarded-proto".to_string()],
        },
        response: HeaderOpsConfig::default(),
    });
    let mut h = head("GET", "/api/users");
    h.headers.insert("x-keep", HeaderValue::from_static("yes"));
    let p = plan(&cfg, &h).unwrap();
    assert_eq!(p.path_and_query, "/users");
    assert_eq!(p.headers.get("x-edge").unwrap(), "1");
    assert_eq!(p.headers.get("x-keep").unwrap(), "yes");
    assert!(p.headers.get("x-forwarded-proto").is_none());
    assert_eq!(p.headers.get("x-forwarded-for").unwrap(), "203.0.113.7");
    assert_eq!(p.headers.get("x-request-id").unwrap(), "rid-1");
    assert!(!p.replayable);
}

#[test]
fn declared_oversize_bodies_are_refused() {
    let mut cfg = config();
    cfg.limits.max_body_bytes = 10;
    let mut h = head("POST", "/");
    h.headers
        .insert(header::CONTENT_LENGTH, HeaderValue::from_static("11"));
    assert_eq!(
        plan(&cfg, &h).err(),
        Some(GatewayError::PayloadTooLarge)
    );
    h.headers
        .insert(header::CONTENT_LENGTH, HeaderValue::from_static("10"));
    assert!(plan(&cfg, &h).is_ok());
}

fn retries(attempts: u32) -> RetryConfig {
    RetryConfig {
        enabled: true,
        attempts,
        methods: vec!["GET".to_string()],
        retry_on: vec!["connect_error".to_string(), "upstream_5xx".to_string()],
    }
}

#[test]
fn listed_methods_are_replayable() {
    let mut cfg = config();
    cfg.upstreams[0].retries = Some(retries(2));
    assert!(plan(&cfg, &head("GET", "/")).unwrap().replayable);
    assert!(!plan(&cfg, &head("POST", "/")).unwrap().replayable);
}

fn send(step: Step) -> usize {
    match step {
        Step::Send(target, _) => target,
        Step::Fail(e) => panic!("no target: {e:?}"),
    }
}

#[test]
fn connect_failures_are_retried_onto_the_next_target() {
    let mut cfg = config();
    cfg.upstreams[0].retries = Some(retries(2));
    let mut snap = snapshot(&cfg);
    let upstream = &mut snap.upstreams[0].runtime;
    let mut f = Forwarding::start(&upstream.retry, true, BodyKind::Buffered);
    match f.next_step(upstream, "/x?y=1") {
        Step::Send(target, uri) => {
            assert_eq!(target, 0);
            assert_eq!(uri.text(), "http://a:1/x?y=1");
        }
        Step::Fail(e) => panic!("no target: {e:?}"),
    }
    let v = f.settle(&mut upstream.targets[0].state, Outcome::Failed, 1);
    assert_eq!(v, Verdict::Retry);
    assert_eq!(send(f.next_step(upstream, "/x?y=1")), 1);
    let v = f.settle(&mut upstream.targets[1].state, Outcome::Answered(200), 2);
    assert_eq!(v, Verdict::Respond);
}

#[test]
fn retries_leave_the_failed_target_whatever_the_weights() {
    let mut cfg = config();
    cfg.upstreams[0].targets[0].weight = 3;
    cfg.upstreams[0].retries = Some(retries(3));
    for start in 0..4 {
        let mut snap = snapshot(&cfg);
        let upstream = &mut snap.upstreams[0].runtime;
        assert_eq!(upstream.schedule, vec![0, 1, 0, 0]);
        upstream.next = start;
        let mut f = Forwarding::start(&upstream.retry, true, BodyKind::Buffered);
        let first = send(f.next_step(upstream, "/"));
        assert_eq!(first, upstream.schedule[start]);
        assert_eq!(f.last_target, Some(first));
        f.settle(&mut upstream.targets[first].state, Outcome::Failed, 1);
        let second = send(f.next_step(upstream, "/"));
        assert_eq!(second, 1 - first, "from slot {start}");
        f.settle(&mut upstream.targets[second].state, Outcome::Failed, 2);
        assert_eq!(send(f.next_step(upstream, "/")), first);
    }
}

#[test]
fn the_counter_moves_past_the_turns_that_are_passed_over() {
    let mut cfg = config();
    cfg.upstreams[0].targets[0].weight = 3;
    let mut snap = snapshot(&cfg);
    let upstream = &mut snap.upstreams[0].runtime;
    upstream.next = 2;
    assert_eq!(upstream.pick_other_target(Some(0)), Some(1));
    assert_eq!(upstream.next, 6);
    assert_eq!(upstream.pick_other_target(None), Some(0));
    assert_eq!(upstream.next, 7);
    assert_eq!(upstream.pick_other_target(Some(1)), Some(0));
    assert_eq!(upstream.next, 8);
}

#[test]
fn a_target_without_others_is_tried_again() {
    let mut cfg = config();
    cfg.upstreams[0].targets.truncate(1);
    cfg.upstreams[0].retries = Some(retries(2));
    let mut snap = snapshot(&cfg);
    let upstream = &mut snap.upstreams[0].runtime;
    let mut f = Forwarding::start(&upstream.retry, true, BodyKind::Buffered);
    assert_eq!(send(f.next_step(upstream, "/")), 0);
    let v = f.settle(&mut upstream.targets[0].state, Outcome::Failed, 1);
    assert_eq!(v, Verdict::Retry);
    assert_eq!(send(f.next_step(upstream, "/")), 0);
    assert_eq!(upstream.next, 2);
}

#[test]
fn server_errors_are_retried_until_attempts_run_out() {
    let mut cfg = config();
    cfg.upstreams[0].retries = Some(retries(2));
    let mut snap = snapshot(&cfg);
    let upstream = &mut snap.upstreams[0].runtime;
    let mut f = Forwarding::start(&upstream.retry, true, BodyKind::Buffered);
    let t = send(f.next_step(upstream, "/"));
    let v = f.settle(&mut upstream.targets[t].state, Outcome::Answered(503), 1);
    assert_eq!(v, Verdict::Retry);
    let t = send(f.next_step(upstream, "/"));
    let v = f.settle(&mut upstream.targets[t].state, Outcome::Answered(503), 1);
    assert_eq!(v, Verdict::Respond, "the last answer goes to the client");
}

#[test]
fn unlisted_requests_are_sent_once_only() {
    let mut cfg = config();
    cfg.upstreams[0].retries = Some(retries(5));
    let mut snap = snapshot(&cfg);
    let upstream = &mut snap.upstreams[0].runtime;
    let mut f = Forwarding::start(&upstream.retry, false, BodyKind::Streamed);
    let t = send(f.next_step(upstream, "/"));
    let v = f.settle(&mut upstream.targets[t].state, Outcome::Failed, 1);
    assert_eq!(v, Verdict::Fail(GatewayError::UpstreamConnect));
}

#[test]
fn failures_have_their_own_errors() {
    let cases = [
        (Outcome::TimedOut, GatewayError::UpstreamTimeout),
        (Outcome::Failed, GatewayError::UpstreamConnect),
        (Outcome::BodyTooLarge, GatewayError::PayloadTooLarge),
    ];
    for (outcome, error) in cases {
        let mut snap = snapshot(&config());
        let upstream = &mut snap.upstreams[0].runtime;
        let mut f = Forwarding::start(&None, false, BodyKind::Streamed);
        let t = send(f.next_step(upstream, "/"));
        let v = f.settle(&mut upstream.targets[t].state, outcome, 1);
        assert_eq!(v, Verdict::Fail(error));
    }
}

#[test]
fn no_target_means_no_healthy_upstream() {
    let mut cfg = config();
    cfg.upstreams[0].targets.clear();
    let mut snap = snapshot(&cfg);
    let upstream = &mut snap.upstreams[0].runtime;
    let mut f = Forwarding::start(&None, false, BodyKind::Streamed);
    assert!(matches!(
        f.next_step(upstream, "/"),
        Step::Fail(GatewayError::NoHealthyUpstream)
    ));
}

#[test]
fn bodies_that_cannot_be_sent_fail_without_a_send() {
    let mut snap = snapshot(&config());
    let upstream = &mut snap.upstreams[0].runtime;
    let mut over = Forwarding::start(&None, false, BodyKind::TooLarge);
    assert!(matches!(
        over.next_step(upstream, "/"),
        Step::Fail(GatewayError::PayloadTooLarge)
    ));
    let mut lost = Forwarding::start(&None, true, BodyKind::Lost);
    assert!(matches!(
        lost.next_step(upstream, "/"),
        Step::Fail(GatewayError::NoHealthyUpstream)
    ));
}

#[test]
fn bodies_are_buffered_up_to_the_cap() {
    let mut reading = ReadAhead::new();
    assert_eq!(reading.take(BodyEvent::Data(60_000)), None);
    assert_eq!(reading.take(BodyEvent::Data(5_536)), None);
    assert_eq!(reading.buffered, 65_536);
    assert_eq!(reading.take(BodyEvent::End), Some(BodyKind::Buffered));
    assert_eq!(reading.take(BodyEvent::Data(1)), Some(BodyKind::Streamed));
    assert_eq!(
        ReadAhead::new().take(BodyEvent::Data(usize::MAX)),
        Some(BodyKind::Streamed)
    );
    assert_eq!(
        ReadAhead::new().take(BodyEvent::OverLimit),
        Some(BodyKind::TooLarge)
    );
    assert_eq!(
        ReadAhead::new().take(BodyEvent::Broken),
        Some(BodyKind::Lost)
    );
}

#[test]
fn attempts_never_exceed_the_policy() {
    let policy = Some(RetryPolicy {
        max_attempts: 3,
        methods: vec!["GET".to_string()],
        on_connect_failure: true,
        on_5xx: true,
    });
    let mut snap = snapshot(&config());
    let upstream = &mut snap.upstreams[0].runtime;
    let mut f = Forwarding::start(&policy, true, BodyKind::Buffered);
    let mut sent = 0;
    loop {
        let t = match f.next_step(upstream, "/") {
            Step::Send(t, _) => t,
            Step::Fail(_) => break,
        };
        sent += 1;
        match f.settle(&mut upstream.targets[t].state, Outcome::Failed, 1) {
            Verdict::Retry => {}
            _ => break,
        }
    }
    assert_eq!(sent, 3);
}

#[test]
fn failures_count_against_managed_targets() {
    let mut cfg = config();
    cfg.upstreams[0].health_check = Some(HealthCheckConfig {
        enabled: true,
        path: "/health".to_string(),
        interval_seconds: 10,
        timeout_ms: 1000,
        healthy_threshold: 1,
        unhealthy_threshold: 1,
    });
    let mut snap = snapshot(&cfg);
    let upstream = &mut snap.upstreams[0].runtime;
    let mut f = Forwarding::start(&None, false, BodyKind::Streamed);
    let t = send(f.next_step(upstream, "/"));
    f.settle(&mut upstream.targets[t].state, Outcome::Failed, 99);
    assert!(!upstream.targets[t].state.is_healthy());
    assert_eq!(upstream.targets[t].state.last_check_ms(), 99);
    assert_eq!(snap.healthy_counts(), vec![("api".to_string(), 1)]);
    let view = snap.upstreams_view();
    assert_eq!(view[0].name, "api");
    assert!(!view[0].targets[0].healthy && view[0].targets[1].healthy);
    assert_eq!(view[0].targets[0].last_check_epoch_ms, 99);
}

#[test]
fn upgrades_go_to_one_target() {
    let mut snap = snapshot(&config());
    let route = &snap.listeners[0].router.routes[0];
    let upstream = &mut snap.upstreams[0].runtime;
    let mut h = head("GET", "/ws");
    h.headers
        .insert(header::UPGRADE, HeaderValue::from_static("websocket"));
    let p = plan_upgrade(upstream, route, &h, "api.example.com", "http", "1.2.3.4", "rid").unwrap();
    assert_eq!((p.target, p.host.as_str(), p.port), (0, "a", 1));
    assert_eq!(p.path_and_query, "/ws");
    assert_eq!(p.headers.get(header::HOST).unwrap(), "a:1");
    assert_eq!(p.headers.get("upgrade").unwrap(), "websocket");
}

#[test]
fn upgrade_answers_decide_the_tunnel() {
    let mut s = HealthState::new(true, 1, 1);
    assert_eq!(
        settle_upgrade(&mut s, UpgradeOutcome::Answered(101), 1),
        UpgradeVerdict::Tunnel
    );
    assert_eq!(
        settle_upgrade(&mut s, UpgradeOutcome::Answered(403), 1),
        UpgradeVerdict::Respond
    );
    assert!(matches!(
        settle_upgrade(&mut s, UpgradeOutcome::Failed, 1),
        UpgradeVerdict::Fail(GatewayError::UpstreamConnect)
    ));
    assert!(!s.is_healthy());
}

#[test]
fn responses_are_rewritten_before_compression() {
    let mut cfg = config();
    cfg.listeners[0].routes[0].headers = Some(HeaderRulesConfig {
        request: HeaderOpsConfig::default(),
        response: HeaderOpsConfig {
            set: vec![("content-type".to_string(), "text/html".to_string())],
            remove: vec!["server".to_string()],
        },
    });
    cfg.compression = Some(CompressionConfig {
        enabled: true,
        algorithms: vec!["gzip".to_string(), "br".to_string()],
        min_bytes: 0,
        types: vec!["text/html".to_string()],
    });
    let snap = snapshot(&cfg);
    let route = &snap.listeners[0].router.routes[0];
    let mut headers = HeaderMap::new();
    headers.insert("server", HeaderValue::from_static("secret"));
    headers.insert("content-type", HeaderValue::from_static("image/png"));
    let mut request = HeaderMap::new();
    request.insert("accept-encoding", HeaderValue::from_static("gzip"));
    let accept = accepted_encodings(&request);
    assert_eq!(accept, "gzip");
    let chosen = finish_response(&mut headers, route, &snap.compression, &accept);
    assert_eq!(chosen, Some(Encoding::Gzip));
    assert!(headers.get("server").is_none());
    assert_eq!(headers.get("content-encoding").unwrap(), "gzip");
    assert_eq!(accepted_encodings(&HeaderMap::new()), "");
}

#[test]
fn overfull_headers_are_not_rewritten() {
    let mut snap = snapshot(&config());
    let to = Admitted {
        listener: 0,
        route: 0,
        upstream: 0,
    };
    let mut h = head("GET", "/");
    assert!(try_plan_forward(&snap, to, &h, "h", "http", "1.2.3.4", "rid")
        .unwrap()
        .is_ok());
    for n in 0..6552 {
        let name = http::HeaderName::try_from(format!("x-{n}")).unwrap();
        h.headers.insert(name, HeaderValue::from_static("v"));
    }
    assert!(try_plan_forward(&snap, to, &h, "h", "http", "1.2.3.4", "rid").is_none());
    let route = snap.listeners[0].router.routes[0].clone();
    let upstream = &mut snap.upstreams[0].runtime;
    assert!(try_plan_upgrade(upstream, &route, &h, "h", "http", "1.2.3.4", "rid").is_none());
    assert_eq!(upstream.next, 0);
    let mut response = h.headers.clone();
    assert_eq!(
        try_finish_response(&mut response, &route, &None, "gzip"),
        Some(None)
    );
    response.insert("x-one-more", HeaderValue::from_static("v"));
    assert_eq!(
        try_finish_response(&mut response, &route, &None, "gzip"),
        None
    );
}

#[test]
fn snapshots_follow_the_config() {
    let mut cfg = config();
    cfg.limits.header_read_timeout_ms = 0;
    cfg.limits.max_header_bytes = 9000;
    cfg.trusted_proxies = vec!["10.0.0.0/8".to_string()];
    let snap = snapshot(&cfg);
    assert_eq!(snap.connect_timeout_ms, 5_000);
    assert_eq!(snap.request_timeout_ms, 30_000);
    assert_eq!(snap.header_read_timeout_ms, None);
    assert_eq!(snap.max_header_bytes, Some(9000));
    assert_eq!(snap.trusted_proxies.len(), 1);
    assert_eq!(snap.find_listener("public"), Some(0));
    assert_eq!(snap.find_listener("private"), None);
    assert_eq!(snap.find_upstream("api"), Some(0));
    assert_eq!(snap.upstreams[0].runtime.schedule, vec![0, 1]);
    let routes = snap.routes();
    assert_eq!(routes.len(), 1);
    assert_eq!(routes[0].listener, "public");
    assert_eq!(routes[0].upstream, "api");
    assert_eq!(snap.healthy_counts(), vec![("api".to_string(), 2)]);
}

#[test]
fn the_metrics_endpoint_shows_the_live_targets() {
    let mut cfg = config();
    cfg.upstreams[0].health_check = Some(HealthCheckConfig {
        enabled: true,
        path: "/health".to_string(),
        interval_seconds: 10,
        timeout_ms: 1000,
        healthy_threshold: 1,
        unhealthy_threshold: 1,
    });
    let mut second = cfg.upstreams[0].clone();
    second.name = "web".to_string();
    cfg.upstreams.push(second);
    let mut snap = snapshot(&cfg);
    let mut metrics = Metrics::new().unwrap();
    metrics.inc_requests();
    let reply = metrics_reply(&mut metrics, &snap);
    assert_eq!(reply.status, 200);
    assert_eq!(
        reply.headers.get(header::CONTENT_TYPE).unwrap(),
        "text/plain; version=0.0.4"
    );
    assert!(reply.body.contains("\ngatepup_requests_total 1\n"));
    assert!(reply.body.contains("\ngatepup_upstream_healthy{upstream=\"api\"} 2\n"));
    assert!(reply.body.contains("\ngatepup_upstream_healthy{upstream=\"web\"} 2\n"));
    snap.upstreams[0].runtime.targets[1].state.observe_at(false, 1);
    let reply = metrics_reply(&mut metrics, &snap);
    assert!(reply.body.contains("\ngatepup_upstream_healthy{upstream=\"api\"} 1\n"));
    assert!(reply.body.contains("\ngatepup_upstream_healthy{upstream=\"web\"} 2\n"));
    assert_eq!(reply.body, metrics.encode());
}

#[test]
fn upstreams_are_listed_by_name() {
    let mut cfg = config();
    let mut second = cfg.upstreams[0].clone();
    second.name = "aaa".to_string();
    cfg.upstreams.push(second);
    let names: Vec<String> = snapshot(&cfg)
        .upstreams_view()
        .into_iter()
        .map(|u| u.name)
        .collect();
    assert_eq!(names, vec!["aaa", "api"]);
}

#[test]
fn broken_binds_and_tls_fail_the_snapshot() {
    let mut cfg = config();
    cfg.listeners[0].bind = "nowhere".to_string();
    assert_eq!(
        build_reload_snapshot(&cfg).err(),
        Some(ProxyError::InvalidBind {
            name: "public".to_string(),
            bind: "nowhere".to_string(),
        })
    );
    let mut cfg = config();
    cfg.listeners[0].protocol = Protocol::Https;
    cfg.listeners[0].tls = Some(TlsConfig {
        cert: "/c.pem".to_string(),
        key: "/k.pem".to_string(),
    });
    assert_eq!(
        build_snapshot(&cfg, &vec![Some("no certificates".to_string())]).err(),
        Some(ProxyError::Tls {
            listener: "public".to_string(),
            message: "no certificates".to_string(),
        })
    );
    let built = build_snapshot(&cfg, &vec![None]).unwrap();
    assert!(built.listeners[0].is_tls);
}

#[test]
fn only_valid_configs_are_loaded() {
    assert!(load_validated(Ok(config())).is_ok());
    let mut cfg = config();
    cfg.upstreams[0].targets.clear();
    let error = load_validated(Ok(cfg)).unwrap_err();
    assert_eq!(
        error.validation_errors(),
        Some(
            &[ValidationError::EmptyTargets {
                upstream: "api".to_string(),
            }][..]
        )
    );
    assert_eq!(
        load_validated(Err(ConfigError::NoConfigSource)).unwrap_err(),
        CoreError::Config(ConfigError::NoConfigSource)
    );
    assert_eq!(
        CoreError::Config(ConfigError::NoConfigSource).validation_errors(),
        None
    );
}

#[test]
fn reloads_build_only_valid_configs() {
    assert!(reload_snapshot(Ok(config())).is_ok());
    let mut cfg = config();
    cfg.timeouts.request_timeout_ms = 0;
    assert!(matches!(
        reload_snapshot(Ok(cfg)),
        Err(CoreError::Invalid(errors)) if errors.len() == 1
    ));
}

#[test]
fn admin_runs_where_it_is_enabled() {
    let mut cfg = config();
    assert!(admin_state(&cfg).unwrap().is_none());
    cfg.admin = Some(AdminConfig {
        enabled: true,
        bind: "127.0.0.1:9090".to_string(),
        token: Some("t".to_string()),
    });
    cfg.metrics = Some(MetricsConfig {
        enabled: true,
        path: "/m".to_string(),
    });
    let state: AdminState = admin_state(&cfg).unwrap().unwrap();
    assert_eq!(state.bind, parse_socket_address("127.0.0.1:9090").unwrap());
    assert_eq!(state.metrics_path.as_deref(), Some("/m"));
    assert_eq!(state.token.as_deref(), Some("t"));
    cfg.metrics.as_mut().unwrap().enabled = false;
    assert_eq!(admin_state(&cfg).unwrap().unwrap().metrics_path, None);
    cfg.admin.as_mut().unwrap().bind = "bad".to_string();
    assert!(matches!(
        admin_state(&cfg),
        Err(CoreError::AdminBind(bind)) if bind == "bad"
    ));
    cfg.admin.as_mut().unwrap().enabled = false;
    assert!(admin_state(&cfg).unwrap().is_none());
}
