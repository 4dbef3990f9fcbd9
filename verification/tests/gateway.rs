//! Requests as they come in, and the responses that the gateway makes itself.

use gatepup::access::{authorized, constant_time_eq, BasicAuth};
use gatepup::gateway::{error_response, tally, GatewayError, Tally};
use gatepup::headers::{fits, header_text, set_header};
use gatepup::model::BasicAuthConfig;
use gatepup::net::{parse_ip, parse_trusted_proxy, IpAddress, IpNetwork};
use gatepup::request::{
    body_exceeds_limit, content_length, is_upgrade, request_host, request_id, resolve_client_ip,
    RequestIds,
};
use gatepup::rewrite::{append_forwarded_for, rewrite_headers, upgrade_headers};
use gatepup::uri::{build_upstream_uri, is_uri, is_valid_target_url, parse_authority};
use http::{header, HeaderMap, HeaderName, HeaderValue};

#[test]
fn gateway_errors_map_to_expected_status_and_code() {
    let cases = [
        (GatewayError::RouteNotFound, 404, "route_not_found"),
        (GatewayError::PayloadTooLarge, 413, "payload_too_large"),
        (GatewayError::NoHealthyUpstream, 503, "no_healthy_upstream"),
        (GatewayError::UpstreamTimeout, 504, "upstream_timeout"),
        (GatewayError::UpstreamConnect, 502, "upstream_connect_error"),
        (GatewayError::UpstreamMissing, 502, "bad_gateway"),
        (GatewayError::BadGateway, 502, "bad_gateway"),
        (GatewayError::Forbidden, 403, "forbidden"),
        (GatewayError::RateLimited, 429, "rate_limited"),
        (GatewayError::Unauthorized, 401, "unauthorized"),
    ];
    for (err, status, code) in cases {
        let (s, c) = err.parts();
        assert_eq!(s, status, "status for {err:?}");
        assert_eq!(c, code, "code for {err:?}");
    }
}

#[test]
fn error_response_carries_json_body_and_request_id() {
    let resp = error_response(GatewayError::RouteNotFound, "rid-123");
    assert_eq!(resp.status, 404);
    assert_eq!(
        resp.headers.get(header::CONTENT_TYPE).unwrap(),
        "application/json"
    );
    assert_eq!(resp.headers.get("x-request-id").unwrap(), "rid-123");
    assert_eq!(resp.body, "{\"error\":\"route_not_found\"}\n");
}

#[test]
fn refusals_tell_the_client_what_to_do() {
    let limited = error_response(GatewayError::RateLimited, "r");
    assert_eq!(limited.headers.get("retry-after").unwrap(), "1");
    let challenge = error_response(GatewayError::Unauthorized, "r");
    assert_eq!(
        challenge.headers.get("www-authenticate").unwrap(),
        "Basic realm=\"gatepup\""
    );
    assert!(challenge.headers.get("retry-after").is_none());
    let odd = error_response(GatewayError::Forbidden, "line\nbreak");
    assert!(odd.headers.get("x-request-id").is_none());
}

#[test]
fn only_upstream_failures_count_against_the_upstream() {
    assert_eq!(tally(None), Tally::UpstreamRequest);
    assert_eq!(
        tally(Some(GatewayError::RouteNotFound)),
        Tally::RouteNotFound
    );
    assert_eq!(tally(Some(GatewayError::Unauthorized)), Tally::Nothing);
    assert_eq!(tally(Some(GatewayError::BadGateway)), Tally::UpstreamError);
    assert!(GatewayError::PayloadTooLarge.is_client_error());
    assert!(!GatewayError::UpstreamMissing.is_client_error());
}

fn headers_with_content_length(len: &str) -> HeaderMap {
    let mut h = HeaderMap::new();
    h.insert(header::CONTENT_LENGTH, HeaderValue::from_str(len).unwrap());
    h
}

#[test]
fn body_limit_zero_means_unlimited() {
    assert!(!body_exceeds_limit(
        &headers_with_content_length("99999999"),
        0
    ));
}

#[test]
fn body_within_limit_is_allowed() {
    assert!(!body_exceeds_limit(&headers_with_content_length("10"), 10));
    assert!(!body_exceeds_limit(&headers_with_content_length("9"), 10));
}

#[test]
fn declared_oversize_body_exceeds_limit() {
    assert!(body_exceeds_limit(&headers_with_content_length("11"), 10));
}

#[test]
fn undeclared_body_passes_content_length_check() {
    // No Content-Length (e.g. chunked) is not rejected up front; it is bounded
    // mid-stream instead.
    assert!(!body_exceeds_limit(&HeaderMap::new(), 10));
}

#[test]
fn content_length_is_a_plain_number() {
    assert_eq!(content_length(&headers_with_content_length("42")), Some(42));
    assert_eq!(content_length(&headers_with_content_length("4 2")), None);
    assert_eq!(content_length(&headers_with_content_length("-1")), None);
    assert_eq!(content_length(&HeaderMap::new()), None);
}

#[test]
fn build_upstream_uri_sets_path_and_query() {
    let uri = build_upstream_uri("http://backend:4000", "/users?page=2").unwrap();
    assert_eq!(uri.text(), "http://backend:4000/users?page=2");
}

#[test]
fn build_upstream_uri_rejects_invalid_target() {
    assert!(build_upstream_uri("not a url", "/").is_err());
}

#[test]
fn target_urls_are_http_with_a_host() {
    assert!(is_valid_target_url("http://api-1:4000"));
    assert!(is_valid_target_url("https://example.com/base"));
    assert!(!is_valid_target_url("ftp://example.com"));
    assert!(!is_valid_target_url("://broken"));
    assert!(!is_valid_target_url("http://"));
    assert!(is_uri("http://a/b"));
    assert!(!is_uri("a b"));
}

fn ip() -> &'static str {
    "203.0.113.7"
}

#[test]
fn rewrite_headers_strips_hop_by_hop_and_host() {
    let mut headers = HeaderMap::new();
    headers.insert(header::HOST, HeaderValue::from_static("gatepup.local"));
    headers.insert(header::CONNECTION, HeaderValue::from_static("close"));
    headers.insert(
        HeaderName::from_static("transfer-encoding"),
        HeaderValue::from_static("chunked"),
    );
    headers.insert(header::UPGRADE, HeaderValue::from_static("h2c"));
    headers.insert(
        HeaderName::from_static("x-keep"),
        HeaderValue::from_static("yes"),
    );

    rewrite_headers(&mut headers, "gatepup.local", "http", ip(), "rid-1");

    assert!(headers.get(header::HOST).is_none());
    assert!(headers.get(header::CONNECTION).is_none());
    assert!(headers.get("transfer-encoding").is_none());
    assert!(headers.get(header::UPGRADE).is_none());
    // Non-hop-by-hop headers are preserved.
    assert_eq!(headers.get("x-keep").unwrap(), "yes");
}

#[test]
fn rewrite_headers_sets_forwarding_headers() {
    let mut headers = HeaderMap::new();
    rewrite_headers(&mut headers, "api.example.com", "https", ip(), "rid-2");

    assert_eq!(headers.get("x-forwarded-for").unwrap(), "203.0.113.7");
    assert_eq!(headers.get("x-forwarded-host").unwrap(), "api.example.com");
    assert_eq!(headers.get("x-forwarded-proto").unwrap(), "https");
    assert_eq!(headers.get("x-request-id").unwrap(), "rid-2");
}

#[test]
fn rewrite_headers_appends_to_existing_forwarded_for() {
    let mut headers = HeaderMap::new();
    headers.insert(
        HeaderName::from_static("x-forwarded-for"),
        HeaderValue::from_static("198.51.100.1"),
    );
    rewrite_headers(&mut headers, "h", "http", ip(), "rid-3");
    assert_eq!(
        headers.get("x-forwarded-for").unwrap(),
        "198.51.100.1, 203.0.113.7"
    );
}

#[test]
fn forwarded_for_names_every_hop() {
    let mut headers = HeaderMap::new();
    append_forwarded_for(&mut headers, "10.0.0.1");
    append_forwarded_for(&mut headers, "10.0.0.2");
    assert_eq!(
        headers.get("x-forwarded-for").unwrap(),
        "10.0.0.1, 10.0.0.2"
    );
}

#[test]
fn upgrades_keep_the_handshake() {
    let mut headers = HeaderMap::new();
    headers.insert(header::CONNECTION, HeaderValue::from_static("Upgrade"));
    headers.insert(header::UPGRADE, HeaderValue::from_static("websocket"));
    headers.insert(
        HeaderName::from_static("sec-websocket-key"),
        HeaderValue::from_static("abc"),
    );
    headers.insert(header::HOST, HeaderValue::from_static("edge"));
    let out = upgrade_headers(&headers, "backend:4000", "edge", "http", ip(), "rid-4");
    assert_eq!(out.get("sec-websocket-key").unwrap(), "abc");
    assert_eq!(out.get(header::UPGRADE).unwrap(), "websocket");
    assert!(is_upgrade(&out));
    assert_eq!(out.get(header::HOST).unwrap(), "backend:4000");
    assert_eq!(out.get("x-forwarded-host").unwrap(), "edge");
    assert_eq!(out.get("x-forwarded-for").unwrap(), "203.0.113.7");
    assert_eq!(out.get("x-request-id").unwrap(), "rid-4");
}

#[test]
fn generated_request_ids_are_unique() {
    let mut ids = RequestIds::new();
    let a = ids.generate_request_id();
    let b = ids.generate_request_id();
    assert_ne!(a, b);
}

#[test]
fn request_ids_are_hexadecimal() {
    assert_eq!(request_id(0, 0), "000000000");
    assert_eq!(request_id(0xabc, 0x1f), "abc0000001f");
    assert_eq!(request_id(0x1, 0x1_2345_6789), "1123456789");
    assert_ne!(request_id(1, 2), request_id(2, 1));
}

#[test]
fn a_request_id_that_came_is_kept() {
    let mut ids = RequestIds::new();
    let mut headers = HeaderMap::new();
    headers.insert("x-request-id", HeaderValue::from_static("given"));
    assert_eq!(ids.ensure_request_id(&headers), "given");
    let made = ids.ensure_request_id(&HeaderMap::new());
    assert_ne!(made, "given");
    assert!(!made.is_empty());
}

#[test]
fn detects_upgrade_requests() {
    let mut headers = HeaderMap::new();
    assert!(!is_upgrade(&headers), "plain request is not an upgrade");

    headers.insert(
        header::CONNECTION,
        HeaderValue::from_static("keep-alive, Upgrade"),
    );
    assert!(
        !is_upgrade(&headers),
        "upgrade token without Upgrade header"
    );

    headers.insert(header::UPGRADE, HeaderValue::from_static("websocket"));
    assert!(is_upgrade(&headers), "connection: upgrade + upgrade header");
}

#[test]
fn parse_authority_splits_host_and_port() {
    assert_eq!(
        parse_authority("http://backend:4000"),
        Some(("backend".to_string(), 4000))
    );
    assert_eq!(
        parse_authority("http://1.2.3.4"),
        Some(("1.2.3.4".to_string(), 80))
    );
    assert_eq!(parse_authority("not a url"), None);
}

#[test]
fn the_host_is_the_header_without_port() {
    let mut headers = HeaderMap::new();
    headers.insert(header::HOST, HeaderValue::from_static("example.com:8080"));
    assert_eq!(request_host(&headers, None), "example.com");
    assert_eq!(request_host(&HeaderMap::new(), Some("other.com")), "other.com");
    assert_eq!(request_host(&HeaderMap::new(), None), "");
}

fn trusted(entries: &[&str]) -> Vec<IpNetwork> {
    entries
        .iter()
        .map(|e| parse_trusted_proxy(e).unwrap())
        .collect()
}

fn forwarded_for(value: &str) -> HeaderMap {
    let mut headers = HeaderMap::new();
    headers.insert("x-forwarded-for", HeaderValue::from_str(value).unwrap());
    headers
}

fn addr(s: &str) -> IpAddress {
    parse_ip(s).unwrap()
}

#[test]
fn untrusted_peers_are_the_client() {
    let headers = forwarded_for("1.2.3.4");
    assert_eq!(
        resolve_client_ip(&headers, &Vec::new(), addr("10.0.0.1")),
        addr("10.0.0.1")
    );
    assert_eq!(
        resolve_client_ip(&headers, &trusted(&["10.0.0.0/8"]), addr("192.0.2.1")),
        addr("192.0.2.1")
    );
}

#[test]
fn the_client_is_the_last_untrusted_hop() {
    let nets = trusted(&["10.0.0.0/8"]);
    let peer = addr("10.0.0.1");
    assert_eq!(
        resolve_client_ip(&forwarded_for("6.6.6.6, 1.2.3.4, 10.9.9.9"), &nets, peer),
        addr("1.2.3.4")
    );
    assert_eq!(
        resolve_client_ip(&forwarded_for("10.1.1.1, 10.2.2.2"), &nets, peer),
        peer
    );
    assert_eq!(
        resolve_client_ip(&forwarded_for("1.2.3.4, nonsense"), &nets, peer),
        peer
    );
    assert_eq!(resolve_client_ip(&HeaderMap::new(), &nets, peer), peer);
}

#[test]
fn hops_are_read_from_every_line() {
    let nets = trusted(&["10.0.0.0/8"]);
    let peer = addr("10.0.0.1");
    let mut headers = forwarded_for("6.6.6.6");
    headers.append("x-forwarded-for", HeaderValue::from_static("1.2.3.4, 10.9.9.9"));
    assert_eq!(resolve_client_ip(&headers, &nets, peer), addr("1.2.3.4"));
    headers.append("x-forwarded-for", HeaderValue::from_static("10.8.8.8"));
    assert_eq!(resolve_client_ip(&headers, &nets, peer), addr("1.2.3.4"));
    let mut unread = forwarded_for("1.2.3.4");
    unread.append(
        "x-forwarded-for",
        HeaderValue::from_bytes(b"\xff").unwrap(),
    );
    assert_eq!(resolve_client_ip(&unread, &nets, peer), peer);
    unread.append("x-forwarded-for", HeaderValue::from_static("5.6.7.8"));
    assert_eq!(resolve_client_ip(&unread, &nets, peer), addr("5.6.7.8"));
    let mut passed = forwarded_for("1.2.3.4");
    passed.append("x-forwarded-for", HeaderValue::from_static("10.8.8.8"));
    assert_eq!(resolve_client_ip(&passed, &nets, peer), addr("1.2.3.4"));
}

#[test]
fn basic_auth_accepts_listed_users_only() {
    let auth = BasicAuth::compile(&BasicAuthConfig {
        users: vec![
            ("alice".to_string(), "secret".to_string()),
            ("bob".to_string(), "pw".to_string()),
        ],
    });
    let mut headers = HeaderMap::new();
    assert!(!auth.allows(&headers));
    headers.insert(
        header::AUTHORIZATION,
        HeaderValue::from_static("Basic YWxpY2U6c2VjcmV0"),
    );
    assert!(auth.allows(&headers));
    headers.insert(
        header::AUTHORIZATION,
        HeaderValue::from_static("Basic Ym9iOnB3"),
    );
    assert!(auth.allows(&headers));
    headers.insert(
        header::AUTHORIZATION,
        HeaderValue::from_static("Basic YWxpY2U6d3Jvbmc="),
    );
    assert!(!auth.allows(&headers));
}

#[test]
fn bearer_tokens_match_whole() {
    let mut headers = HeaderMap::new();
    assert!(!authorized(&headers, "t0ken"));
    headers.insert(
        header::AUTHORIZATION,
        HeaderValue::from_static("Bearer t0ken"),
    );
    assert!(authorized(&headers, "t0ken"));
    assert!(!authorized(&headers, "t0ke"));
    assert!(!authorized(&headers, "t0kenn"));
    assert!(constant_time_eq(b"abc", b"abc"));
    assert!(!constant_time_eq(b"abc", b"abd"));
    assert!(!constant_time_eq(b"abc", b"ab"));
    assert!(constant_time_eq(b"", b""));
}

#[test]
fn header_values_are_set_where_they_may_stand() {
    let mut headers = HeaderMap::new();
    set_header(&mut headers, "x-a", "1");
    assert_eq!(header_text(&headers, "x-a"), Some("1".to_string()));
    set_header(&mut headers, "x-a", "bad\nvalue");
    assert_eq!(header_text(&headers, "x-a"), Some("1".to_string()));
    assert_eq!(header_text(&headers, "x-b"), None);
    headers.insert("x-c", HeaderValue::from_bytes(b"caf\xe9").unwrap());
    assert_eq!(header_text(&headers, "x-c"), None);
    assert!(fits(&headers, 4));
    assert!(!fits(&headers, 100_000));
}
