//! Routing, header rules and access lists.

use gatepup::access::IpAccess;
use gatepup::model::{HeaderOpsConfig, IpAccessConfig, MatchConfig, RouteConfig};
use gatepup::net::{parse_ip, IpAddress};
use gatepup::router::{HeaderOps, Router};
use http::{HeaderMap, HeaderValue};

fn route(name_upstream: &str, host: Option<&str>, prefix: Option<&str>) -> RouteConfig {
    RouteConfig {
        name: name_upstream.to_string(),
        matcher: MatchConfig {
            host: host.map(str::to_string),
            path_prefix: prefix.map(str::to_string),
        },
        upstream: name_upstream.to_string(),
        strip_prefix: false,
        headers: None,
        ip_access: None,
        rate_limit: None,
        basic_auth: None,
    }
}

fn ip(s: &str) -> IpAddress {
    parse_ip(s).unwrap()
}

#[test]
fn header_ops_remove_then_set() {
    let cfg = HeaderOpsConfig {
        set: vec![("x-a".to_string(), "new".to_string())],
        remove: vec!["x-b".to_string()],
    };
    let ops = HeaderOps::compile(&cfg);
    let mut h = HeaderMap::new();
    h.insert("x-b", HeaderValue::from_static("old"));
    h.insert("x-a", HeaderValue::from_static("orig"));
    ops.apply(&mut h);
    assert!(!h.contains_key("x-b"), "remove should delete x-b");
    assert_eq!(h.get("x-a").unwrap(), "new", "set should overwrite x-a");
}

#[test]
fn header_ops_compile_skips_invalid() {
    let cfg = HeaderOpsConfig {
        set: vec![("bad name".to_string(), "v".to_string())],
        remove: vec!["also bad".to_string()],
    };
    let ops = HeaderOps::compile(&cfg);
    let mut h = HeaderMap::new();
    ops.apply(&mut h); // must not panic; invalid entries are dropped
    assert!(h.is_empty());
}

#[test]
fn set_wins_where_a_header_is_removed_too() {
    let ops = HeaderOps::compile(&HeaderOpsConfig {
        set: vec![("X-Both".to_string(), "kept".to_string())],
        remove: vec!["x-both".to_string()],
    });
    let mut h = HeaderMap::new();
    h.append("x-both", HeaderValue::from_static("one"));
    h.append("x-both", HeaderValue::from_static("two"));
    ops.apply(&mut h);
    assert_eq!(h.get_all("x-both").iter().count(), 1);
    assert_eq!(h.get("x-both").unwrap(), "kept");
}

fn acl(allow: &[&str], deny: &[&str]) -> IpAccess {
    IpAccess::compile(&IpAccessConfig {
        allow: allow.iter().map(|s| s.to_string()).collect(),
        deny: deny.iter().map(|s| s.to_string()).collect(),
    })
}

#[test]
fn ip_access_empty_allows_all() {
    assert!(IpAccess::default().allows(ip("203.0.113.7")));
}

#[test]
fn ip_access_deny_blocks() {
    let a = acl(&[], &["10.0.0.0/8"]);
    assert!(!a.allows(ip("10.1.2.3")));
    assert!(a.allows(ip("203.0.113.7")));
}

#[test]
fn ip_access_allowlist_restricts() {
    let a = acl(&["192.168.0.0/16"], &[]);
    assert!(a.allows(ip("192.168.1.1")));
    assert!(!a.allows(ip("203.0.113.7")));
}

#[test]
fn ip_access_deny_wins_over_allow() {
    let a = acl(&["10.0.0.0/8"], &["10.0.0.5"]);
    assert!(a.allows(ip("10.0.0.1")));
    assert!(!a.allows(ip("10.0.0.5")));
}

#[test]
fn ip_access_knows_ipv6_networks() {
    let a = acl(&["2001:db8::/32"], &["2001:db8:1::/48"]);
    assert!(a.allows(ip("2001:db8::1")));
    assert!(!a.allows(ip("2001:db8:1::1")));
    assert!(!a.allows(ip("2001:db9::1")));
    assert!(!a.allows(ip("10.0.0.1")));
}

#[test]
fn matches_by_host() {
    let router = Router::build(&vec![
        route("api", Some("api.example.com"), Some("/")),
        route("web", Some("example.com"), Some("/")),
    ]);
    assert_eq!(
        router
            .match_route("api.example.com", "/users")
            .unwrap()
            .upstream,
        "api"
    );
    assert_eq!(
        router.match_route("example.com", "/").unwrap().upstream,
        "web"
    );
}

#[test]
fn returns_none_for_unknown_host() {
    let router = Router::build(&vec![route("api", Some("api.example.com"), Some("/"))]);
    assert!(router.match_route("nope.example.com", "/").is_none());
}

#[test]
fn prefers_longest_path_prefix() {
    let router = Router::build(&vec![
        route("root", Some("example.com"), Some("/")),
        route("api", Some("example.com"), Some("/api")),
    ]);
    assert_eq!(
        router
            .match_route("example.com", "/api/v1")
            .unwrap()
            .upstream,
        "api"
    );
    assert_eq!(
        router
            .match_route("example.com", "/other")
            .unwrap()
            .upstream,
        "root"
    );
}

#[test]
fn wildcard_matches_subdomains_not_bare() {
    let router = Router::build(&vec![route("wild", Some("*.example.com"), Some("/"))]);
    assert_eq!(
        router.match_route("api.example.com", "/").unwrap().upstream,
        "wild"
    );
    assert_eq!(
        router.match_route("a.b.example.com", "/").unwrap().upstream,
        "wild"
    );
    assert!(
        router.match_route("example.com", "/").is_none(),
        "bare domain must not match the wildcard"
    );
    assert!(
        router.match_route("evilexample.com", "/").is_none(),
        "suffix without a dot boundary must not match"
    );
}

#[test]
fn exact_beats_wildcard_beats_any() {
    let router = Router::build(&vec![
        route("any", None, Some("/")),
        route("wild", Some("*.example.com"), Some("/")),
        route("exact", Some("api.example.com"), Some("/")),
    ]);
    assert_eq!(
        router.match_route("api.example.com", "/").unwrap().upstream,
        "exact"
    );
    assert_eq!(
        router
            .match_route("other.example.com", "/")
            .unwrap()
            .upstream,
        "wild"
    );
    assert_eq!(router.match_route("foo.com", "/").unwrap().upstream, "any");
}

#[test]
fn strip_prefix_rewrites_forwarded_path() {
    let mut r = route("api", Some("h"), Some("/api"));
    r.strip_prefix = true;
    let router = Router::build(&vec![r]);
    let cr = router.match_route("h", "/api/users").unwrap();
    assert_eq!(
        cr.rewritten_path_and_query(Some("/api/users?q=1")),
        "/users?q=1"
    );
    // Stripping down to nothing normalizes to "/".
    assert_eq!(cr.rewritten_path_and_query(Some("/api")), "/");
}

#[test]
fn no_strip_keeps_original_path() {
    let router = Router::build(&vec![route("api", Some("h"), Some("/api"))]);
    let cr = router.match_route("h", "/api/users").unwrap();
    assert_eq!(
        cr.rewritten_path_and_query(Some("/api/users")),
        "/api/users"
    );
}

#[test]
fn stripped_paths_stay_rooted_and_keep_their_query() {
    let mut r = route("api", None, Some("/api/"));
    r.strip_prefix = true;
    let router = Router::build(&vec![r]);
    let cr = router.match_route("any", "/api/users").unwrap();
    assert_eq!(cr.rewritten_path_and_query(Some("/api/users")), "/users");
    assert_eq!(cr.rewritten_path_and_query(Some("/api/?a=/b")), "/?a=/b");
    assert_eq!(cr.rewritten_path_and_query(None), "/");
}

#[test]
fn prefers_host_match_over_wildcard() {
    let router = Router::build(&vec![
        route("any", None, Some("/")),
        route("exact", Some("example.com"), Some("/")),
    ]);
    assert_eq!(
        router.match_route("example.com", "/").unwrap().upstream,
        "exact"
    );
    assert_eq!(
        router.match_route("other.com", "/").unwrap().upstream,
        "any"
    );
}

#[test]
fn host_outranks_path() {
    let router = Router::build(&vec![
        route("long", None, Some("/very/long/prefix")),
        route("host", Some("h"), Some("/")),
    ]);
    assert_eq!(
        router.match_route("h", "/very/long/prefix/x").unwrap().name,
        "host"
    );
    assert_eq!(router.find_route("other", "/very/long/prefix"), Some(0));
    assert_eq!(router.find_route("other", "/"), None);
}

#[test]
fn summaries_follow_the_order_of_the_document() {
    let router = Router::build(&vec![
        route("any", None, None),
        route("exact", Some("h"), Some("/a")),
    ]);
    let s = router.summaries();
    assert_eq!(s.len(), 2);
    assert_eq!(s[0].name, "any");
    assert_eq!(s[0].host, None);
    assert_eq!(s[0].path_prefix, "/");
    assert_eq!(s[0].upstream, "any");
    assert_eq!(s[1].name, "exact");
    assert_eq!(s[1].host.as_deref(), Some("h"));
    assert_eq!(s[1].path_prefix, "/a");
}
