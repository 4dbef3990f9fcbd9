//! Target selection and retry policies.

use gatepup::health::HealthState;
use gatepup::model::RetryConfig;
use gatepup::schedule::{build_schedule, gcd};
use gatepup::upstream::{RetryPolicy, TargetRuntime, UpstreamRuntime};

// Managed health with threshold 1 so a single `observe(false)` ejects.
fn upstream(urls: &[&str]) -> UpstreamRuntime {
    weighted_upstream(urls, &vec![1; urls.len()])
}

fn weighted_upstream(urls: &[&str], weights: &[u32]) -> UpstreamRuntime {
    UpstreamRuntime {
        targets: urls
            .iter()
            .map(|u| TargetRuntime {
                url: u.to_string(),
                state: HealthState::new(true, 1, 1),
            })
            .collect(),
        health: None,
        retry: None,
        tls_insecure_skip_verify: false,
        schedule: build_schedule(weights),
        next: 0,
    }
}

fn pick(u: &mut UpstreamRuntime) -> Option<String> {
    u.pick_target().map(|t| u.targets[t].url.clone())
}

#[test]
fn round_robin_cycles_through_targets() {
    let mut u = upstream(&["a", "b", "c"]);
    let seq: Vec<String> = (0..6).filter_map(|_| pick(&mut u)).collect();
    assert_eq!(seq, ["a", "b", "c", "a", "b", "c"]);
}

#[test]
fn pick_target_skips_unhealthy() {
    let mut u = upstream(&["a", "b", "c"]);
    u.targets[1].state.observe(false); // eject "b"
    let seq: Vec<String> = (0..4).filter_map(|_| pick(&mut u)).collect();
    assert!(seq.iter().all(|url| url != "b"), "got {seq:?}");
    assert!(seq.contains(&"a".to_string()) && seq.contains(&"c".to_string()));
}

#[test]
fn pick_target_none_when_all_unhealthy() {
    let mut u = upstream(&["a", "b"]);
    for t in &mut u.targets {
        t.state.observe(false);
    }
    assert!(u.pick_target().is_none());
}

#[test]
fn pick_target_none_when_no_targets() {
    let mut u = upstream(&[]);
    assert!(u.pick_target().is_none());
}

#[test]
fn build_schedule_equal_weights_is_plain_round_robin() {
    assert_eq!(build_schedule(&[1, 1, 1]), vec![0, 1, 2]);
}

#[test]
fn build_schedule_reduces_by_gcd() {
    // 2:4 -> 1:2 : one slot for target 0, two for target 1.
    let s = build_schedule(&[2, 4]);
    assert_eq!(s.iter().filter(|&&i| i == 0).count(), 1);
    assert_eq!(s.iter().filter(|&&i| i == 1).count(), 2);
}

#[test]
fn build_schedule_interleaves_rather_than_bursting() {
    // 3:1 should not place all of target 0 before target 1.
    let s = build_schedule(&[3, 1]);
    assert_eq!(s.iter().filter(|&&i| i == 0).count(), 3);
    assert_eq!(s.iter().filter(|&&i| i == 1).count(), 1);
    assert_ne!(s, vec![0, 0, 0, 1], "schedule should be interleaved");
}

#[test]
fn schedule_gives_each_target_its_share() {
    assert_eq!(build_schedule(&[3, 1]), vec![0, 1, 0, 0]);
    assert_eq!(build_schedule(&[7, 7]), vec![0, 1]);
    assert_eq!(build_schedule(&[0, 5]), vec![1]);
    assert_eq!(build_schedule(&[0, 0]), Vec::<usize>::new());
    assert_eq!(build_schedule(&[]), Vec::<usize>::new());
    assert_eq!(build_schedule(&[6, 4, 2]).len(), 6);
}

#[test]
fn greatest_common_divisors() {
    assert_eq!(gcd(12, 18), 6);
    assert_eq!(gcd(7, 5), 1);
    assert_eq!(gcd(0, 9), 9);
    assert_eq!(gcd(9, 0), 9);
    assert_eq!(gcd(0, 0), 0);
}

#[test]
fn weighted_pick_honors_weights() {
    let mut u = weighted_upstream(&["a", "b"], &[3, 1]);
    let mut a = 0;
    let mut b = 0;
    for _ in 0..400 {
        match pick(&mut u).as_deref() {
            Some("a") => a += 1,
            Some("b") => b += 1,
            _ => {}
        }
    }
    assert_eq!(a + b, 400);
    assert_eq!(a, 300, "target a should get 3/4 of traffic");
    assert_eq!(b, 100, "target b should get 1/4 of traffic");
}

#[test]
fn retry_policy_parses_methods_and_conditions() {
    let cfg = RetryConfig {
        enabled: true,
        attempts: 3,
        methods: vec!["GET".to_string(), "POST".to_string()],
        retry_on: vec!["connect_timeout".to_string(), "upstream_5xx".to_string()],
    };
    let policy = RetryPolicy::from_config(&cfg).unwrap();
    assert_eq!(policy.max_attempts, 3);
    assert!(policy.allows_method("GET"));
    assert!(policy.allows_method("POST"));
    assert!(!policy.allows_method("PUT"));
    assert!(policy.on_connect_failure); // connect_timeout counts
    assert!(policy.on_5xx);
}

#[test]
fn retry_policy_none_when_disabled() {
    let cfg = RetryConfig {
        enabled: false,
        attempts: 2,
        methods: vec!["GET".to_string()],
        retry_on: vec!["connect_error".to_string()],
    };
    assert!(RetryPolicy::from_config(&cfg).is_none());
}

#[test]
fn retry_policy_leaves_out_what_is_no_method() {
    let cfg = RetryConfig {
        enabled: true,
        attempts: 2,
        methods: vec!["GET".to_string(), "NOT A METHOD".to_string()],
        retry_on: vec!["upstream_5xx".to_string()],
    };
    let policy = RetryPolicy::from_config(&cfg).unwrap();
    assert_eq!(policy.methods, vec!["GET".to_string()]);
    assert!(!policy.on_connect_failure);
    assert!(policy.on_5xx);
}

#[test]
fn weighted_pick_redistributes_when_a_target_is_unhealthy() {
    let mut u = weighted_upstream(&["a", "b"], &[3, 1]);
    u.targets[1].state.observe(false); // eject "b" (the weight-1 target)
    let all_a = (0..100).filter_map(|_| pick(&mut u)).all(|url| url == "a");
    assert!(all_a, "all traffic should go to the only healthy target");
}

#[test]
fn healthy_targets_keep_their_share_from_any_position() {
    for start in 0..6 {
        let mut u = weighted_upstream(&["a", "b", "c"], &[3, 1, 2]);
        u.next = start;
        u.targets[0].state.observe(false); // eject "a"
        let mut seq: Vec<String> = (0..3).filter_map(|_| pick(&mut u)).collect();
        seq.sort();
        assert_eq!(seq, ["b", "c", "c"], "from position {start}");
        assert!(u.next <= start + 6);
    }
}
