//! The admin endpoints and TLS material.

use gatepup::admin::{health_payload, json, refusal_reply, route, AdminRoute, AdminState};
use gatepup::error::TlsError;
use gatepup::net::parse_socket_address;
use gatepup::tls::{load_certs, load_key, KeyKind};
use http::{header, HeaderMap, HeaderValue};

#[test]
fn payload_reports_ok_and_version() {
    let payload: serde_json::Value = serde_json::from_str(&health_payload("9.9.9")).unwrap();
    assert_eq!(payload["status"], "ok");
    assert_eq!(payload["version"], "9.9.9");
}

#[test]
fn versions_are_escaped() {
    assert_eq!(
        health_payload("a\"b"),
        "{\"status\":\"ok\",\"version\":\"a\\\"b\"}"
    );
}

fn state(token: Option<&str>) -> AdminState {
    AdminState {
        bind: parse_socket_address("127.0.0.1:9090").unwrap(),
        metrics_path: Some("/metrics".to_string()),
        token: token.map(str::to_string),
    }
}

#[test]
fn endpoints_are_found_by_path() {
    let none = HeaderMap::new();
    let s = state(None);
    assert_eq!(route(&s, "GET", "/health", &none), AdminRoute::Health);
    assert_eq!(route(&s, "GET", "/routes", &none), AdminRoute::Routes);
    assert_eq!(route(&s, "GET", "/upstreams", &none), AdminRoute::Upstreams);
    assert_eq!(
        route(&s, "GET", "/config/effective", &none),
        AdminRoute::EffectiveConfig
    );
    assert_eq!(route(&s, "GET", "/metrics", &none), AdminRoute::Metrics);
    assert_eq!(route(&s, "GET", "/nope", &none), AdminRoute::NotFound);
    assert_eq!(
        route(&s, "POST", "/health", &none),
        AdminRoute::MethodNotAllowed
    );
    let mut quiet = state(None);
    quiet.metrics_path = None;
    assert_eq!(route(&quiet, "GET", "/metrics", &none), AdminRoute::NotFound);
}

#[test]
fn the_token_guards_all_but_health() {
    let s = state(Some("t0ken"));
    let mut headers = HeaderMap::new();
    assert_eq!(route(&s, "GET", "/health", &headers), AdminRoute::Health);
    assert_eq!(
        route(&s, "GET", "/routes", &headers),
        AdminRoute::Unauthorized
    );
    assert_eq!(
        route(&s, "GET", "/metrics", &headers),
        AdminRoute::Unauthorized
    );
    headers.insert(
        header::AUTHORIZATION,
        HeaderValue::from_static("Bearer t0ken"),
    );
    assert_eq!(route(&s, "GET", "/routes", &headers), AdminRoute::Routes);
    assert_eq!(route(&s, "GET", "/metrics", &headers), AdminRoute::Metrics);
}

#[test]
fn refusals_are_json() {
    let missing = refusal_reply(AdminRoute::NotFound).unwrap();
    assert_eq!(missing.status, 404);
    assert_eq!(missing.body, "{\"error\":\"not_found\"}");
    let method = refusal_reply(AdminRoute::MethodNotAllowed).unwrap();
    assert_eq!(method.status, 405);
    let token = refusal_reply(AdminRoute::Unauthorized).unwrap();
    assert_eq!(token.status, 401);
    assert_eq!(
        token.headers.get("www-authenticate").unwrap(),
        "Bearer realm=\"gatepup-admin\""
    );
    assert!(refusal_reply(AdminRoute::Health).is_none());
    let ok = json(200, "{}".to_string());
    assert_eq!(ok.headers.get("content-type").unwrap(), "application/json");
}

fn pem(label: &str) -> Vec<u8> {
    format!("-----BEGIN {label}-----\nAQID\n-----END {label}-----\n").into_bytes()
}

#[test]
fn fails_on_empty_cert_file() {
    assert_eq!(
        load_certs("empty-cert.pem", b""),
        Err(TlsError::NoCerts {
            path: "empty-cert.pem".to_string(),
        })
    );
    assert!(load_key("empty-key.pem", b"").is_err());
}

#[test]
fn certificates_are_read_in_order() {
    let mut chain = pem("CERTIFICATE");
    chain.extend_from_slice(b"-----BEGIN CERTIFICATE-----\nBAUG\n-----END CERTIFICATE-----\n");
    assert_eq!(
        load_certs("chain.pem", &chain),
        Ok(vec![vec![1, 2, 3], vec![4, 5, 6]])
    );
}

#[test]
fn keys_are_read_with_their_kind() {
    let kinds = [
        ("RSA PRIVATE KEY", KeyKind::Pkcs1),
        ("PRIVATE KEY", KeyKind::Pkcs8),
        ("EC PRIVATE KEY", KeyKind::Sec1),
    ];
    for (label, kind) in kinds {
        assert_eq!(load_key("key.pem", &pem(label)), Ok((kind, vec![1, 2, 3])));
    }
    assert_eq!(
        load_key("key.pem", &pem("CERTIFICATE")),
        Err(TlsError::NoKey {
            path: "key.pem".to_string(),
        })
    );
}

#[test]
fn broken_pem_is_reported() {
    let broken = b"-----BEGIN CERTIFICATE-----\n!!!!\n-----END CERTIFICATE-----\n";
    assert!(matches!(
        load_certs("bad.pem", broken),
        Err(TlsError::Read { path, .. }) if path == "bad.pem"
    ));
}
