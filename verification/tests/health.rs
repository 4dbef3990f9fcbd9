//! Health of targets and the probes of it.

use gatepup::health::{probe_passed, HealthState};
use gatepup::uri::probe_uri;

#[test]
fn starts_healthy() {
    let s = HealthState::new(true, 2, 3);
    assert!(s.is_healthy());
}

#[test]
fn unmanaged_never_changes() {
    let mut s = HealthState::new(false, 1, 1);
    s.observe(false);
    s.observe(false);
    assert!(s.is_healthy());
}

#[test]
fn goes_unhealthy_after_consecutive_failures() {
    let mut s = HealthState::new(true, 2, 3);
    s.observe(false);
    s.observe(false);
    assert!(s.is_healthy(), "still healthy below threshold");
    s.observe(false);
    assert!(!s.is_healthy(), "unhealthy at threshold");
}

#[test]
fn recovers_after_consecutive_successes() {
    let mut s = HealthState::new(true, 2, 1);
    s.observe(false);
    assert!(!s.is_healthy());
    s.observe(true);
    assert!(!s.is_healthy(), "one success below recover threshold");
    s.observe(true);
    assert!(s.is_healthy(), "recovered at threshold");
}

#[test]
fn a_success_resets_the_failure_streak() {
    let mut s = HealthState::new(true, 1, 3);
    s.observe(false);
    s.observe(false);
    s.observe(true); // resets failure streak
    s.observe(false);
    s.observe(false);
    assert!(
        s.is_healthy(),
        "two failures after reset is below threshold of 3"
    );
}

#[test]
fn observations_keep_their_time() {
    let mut s = HealthState::new(true, 2, 3);
    assert_eq!(s.last_check_ms(), 0);
    s.observe_at(true, 17);
    assert_eq!(s.last_check_ms(), 17);
    s.observe_at(false, 18);
    assert_eq!(s.last_check_ms(), 18);
    s.observe(true);
    assert!(s.last_check_ms() > 1_600_000_000_000);
}

#[test]
fn probes_pass_on_2xx() {
    assert!(probe_passed(Some(200)));
    assert!(probe_passed(Some(299)));
    assert!(!probe_passed(Some(199)));
    assert!(!probe_passed(Some(300)));
    assert!(!probe_passed(Some(500)));
    assert!(!probe_passed(None));
}

#[test]
fn probe_uri_appends_health_path() {
    let uri = probe_uri("http://backend:4000", "/health").unwrap();
    assert_eq!(uri.text(), "http://backend:4000/health");
}

#[test]
fn probe_uri_defaults_empty_path() {
    let uri = probe_uri("http://backend:4000", "").unwrap();
    assert_eq!(uri.text(), "http://backend:4000/");
}

#[test]
fn probe_uri_rejects_bad_base() {
    assert!(probe_uri("not a url", "/health").is_err());
}

#[test]
fn streaks_past_the_threshold_change_nothing() {
    let mut s = HealthState::new(true, 2, 3);
    for _ in 0..50 {
        s.observe(false);
    }
    assert!(!s.is_healthy());
    s.observe(true);
    assert!(!s.is_healthy());
    for _ in 0..50 {
        s.observe(true);
        assert!(s.is_healthy());
    }
}
