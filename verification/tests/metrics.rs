//! The metrics and their text.

use gatepup::gateway::GatewayError;
use gatepup::metrics::Metrics;

#[test]
fn encodes_registered_metrics() {
    let mut m = Metrics::new().unwrap();
    m.inc_requests();
    m.inc_upstream_requests();
    m.set_upstream_healthy("api", 2);
    let text = m.encode();
    assert!(text.contains("gatepup_requests_total 1"));
    assert!(text.contains("gatepup_upstream_requests_total 1"));
    assert!(text.contains("gatepup_upstream_healthy{upstream=\"api\"} 2"));
}

#[test]
fn duration_histogram_is_exposed() {
    let mut m = Metrics::new().unwrap();
    m.observe_duration(12_000_000);
    let text = m.encode();
    assert!(text.contains("gatepup_request_duration_seconds_count 1"));
    assert!(text.contains("gatepup_request_duration_seconds_sum 0.012\n"));
}

#[test]
fn plain_metrics_start_at_zero() {
    let text = Metrics::new().unwrap().encode();
    for name in [
        "gatepup_requests_total",
        "gatepup_upstream_requests_total",
        "gatepup_upstream_errors_total",
        "gatepup_upstream_retries_total",
        "gatepup_route_not_found_total",
        "gatepup_websocket_connections_total",
        "gatepup_request_duration_seconds_count",
    ] {
        assert!(text.contains(&format!("\n{} 0\n", name)), "{}", name);
    }
}

#[test]
fn each_counter_goes_up_alone() {
    let mut m = Metrics::new().unwrap();
    m.inc_upstream_errors();
    m.inc_upstream_retries();
    m.inc_upstream_retries();
    m.inc_route_not_found();
    m.inc_websocket();
    let text = m.encode();
    assert!(text.contains("\ngatepup_upstream_errors_total 1\n"));
    assert!(text.contains("\ngatepup_upstream_retries_total 2\n"));
    assert!(text.contains("\ngatepup_route_not_found_total 1\n"));
    assert!(text.contains("\ngatepup_websocket_connections_total 1\n"));
    assert!(text.contains("\ngatepup_requests_total 0\n"));
}

#[test]
fn reloads_are_counted_by_outcome() {
    let mut m = Metrics::new().unwrap();
    m.inc_config_reload(true);
    m.inc_config_reload(false);
    m.inc_config_reload(false);
    let text = m.encode();
    assert!(text.contains("\ngatepup_config_reloads_total{result=\"success\"} 1\n"));
    assert!(text.contains("\ngatepup_config_reloads_total{result=\"failure\"} 2\n"));
}

#[test]
fn gauges_hold_the_last_level() {
    let mut m = Metrics::new().unwrap();
    m.set_upstream_healthy("api", 3);
    m.set_upstream_healthy("web", 1);
    m.set_upstream_healthy("api", 0);
    let text = m.encode();
    assert!(text.contains("gatepup_upstream_healthy{upstream=\"api\"} 0"));
    assert!(text.contains("gatepup_upstream_healthy{upstream=\"web\"} 1"));
}

#[test]
fn requests_are_recorded_by_outcome() {
    let mut m = Metrics::new().unwrap();
    m.record(None);
    m.record(Some(GatewayError::RouteNotFound));
    m.record(Some(GatewayError::UpstreamTimeout));
    m.record(Some(GatewayError::Forbidden));
    let text = m.encode();
    assert!(text.contains("\ngatepup_upstream_requests_total 1\n"));
    assert!(text.contains("\ngatepup_route_not_found_total 1\n"));
    assert!(text.contains("\ngatepup_upstream_errors_total 1\n"));
}

#[test]
fn lines_are_whole() {
    let mut m = Metrics::new().unwrap();
    m.inc_config_reload(true);
    m.set_upstream_healthy("api", -3);
    m.observe_duration(1);
    m.observe_duration(2_000_000_000);
    let text = m.encode();
    assert!(text.contains("\ngatepup_config_reloads_total{result=\"success\"} 1\n"));
    assert!(text.contains("\ngatepup_upstream_healthy{upstream=\"api\"} -3\n"));
    assert!(text.contains("\ngatepup_request_duration_seconds_count 2\n"));
    assert!(!text.contains("result=\"failure\""));
}

#[test]
fn large_levels_are_exact() {
    let mut m = Metrics::new().unwrap();
    m.set_upstream_healthy("high", 9_007_199_254_740_992);
    m.set_upstream_healthy("low", -9_007_199_254_740_992);
    let text = m.encode();
    assert!(text.contains("\ngatepup_upstream_healthy{upstream=\"high\"} 9007199254740992\n"));
    assert!(text.contains("\ngatepup_upstream_healthy{upstream=\"low\"} -9007199254740992\n"));
}

#[test]
fn label_values_are_escaped() {
    let mut m = Metrics::new().unwrap();
    m.set_upstream_healthy("a\"b\\c\nd", 1);
    let text = m.encode();
    assert!(text.contains("\ngatepup_upstream_healthy{upstream=\"a\\\"b\\\\c\\nd\"} 1\n"));
}

#[test]
fn equal_metrics_have_equal_texts() {
    let mut a = Metrics::new().unwrap();
    a.set_upstream_healthy("api", 2);
    a.set_upstream_healthy("web", 1);
    a.observe_duration(12_000_000);
    a.inc_requests();
    a.observe_duration(7);
    let mut b = Metrics::new().unwrap();
    b.inc_requests();
    b.observe_duration(12_000_000);
    assert!(b.encode() != a.encode());
    b.observe_duration(7);
    b.set_upstream_healthy("web", 5);
    b.set_upstream_healthy("web", 1);
    b.set_upstream_healthy("api", 2);
    assert_eq!(a.encode(), b.encode());
    assert_eq!(a.encode(), a.encode());
}
