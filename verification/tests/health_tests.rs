use rpc_proxy::health::{HealthState, ProbeOutcome};

fn store(labels: &[&str], f: u32, s: u32) -> HealthState {
    HealthState::new(labels.iter().map(|l| l.to_string()).collect(), f, s)
}

#[test]
fn starts_healthy_with_zero_counters() {
    let h = store(&["a", "b"], 3, 2);
    let rec = h.get_status(&"a".to_string()).unwrap();
    assert!(rec.healthy);
    assert_eq!(rec.consecutive_failures, 0);
    assert_eq!(rec.consecutive_successes, 0);
    assert!(rec.last_check_time.is_none());
    assert!(rec.last_error.is_none());
}

#[test]
fn unknown_label_has_no_record() {
    let h = store(&["a"], 3, 2);
    assert!(h.get_status(&"missing".to_string()).is_none());
}

#[test]
fn hysteresis_flips_after_third_failure_and_second_success() {
    // probe outcomes S, F, F, S, F, F, F with F=3, S=2: healthy flips to
    // false exactly on the third consecutive failure, and the later
    // S, S flips it back.
    let mut h = store(&["a"], 3, 2);
    let a = "a".to_string();
    let outcomes = [true, false, false, true, false, false, false];
    let mut healthy_trace = Vec::new();
    for (t, ok) in outcomes.iter().enumerate() {
        let outcome = if *ok {
            ProbeOutcome::Success
        } else {
            ProbeOutcome::Failure("status 500".to_string())
        };
        h.apply_probe(&a, outcome, t as u64);
        healthy_trace.push(h.get_status(&a).unwrap().healthy);
    }
    assert_eq!(healthy_trace, vec![true, true, true, true, true, true, false]);
    h.apply_probe(&a, ProbeOutcome::Success, 7);
    assert!(!h.get_status(&a).unwrap().healthy);
    h.apply_probe(&a, ProbeOutcome::Success, 8);
    assert!(h.get_status(&a).unwrap().healthy);
}

#[test]
fn one_counter_is_always_zero() {
    let mut h = store(&["a"], 3, 2);
    let a = "a".to_string();
    let pattern = [true, true, false, true, false, false, false, true];
    for (t, ok) in pattern.iter().enumerate() {
        let outcome = if *ok {
            ProbeOutcome::Success
        } else {
            ProbeOutcome::Failure("timeout".to_string())
        };
        h.apply_probe(&a, outcome, t as u64);
        let rec = h.get_status(&a).unwrap();
        assert!(rec.consecutive_failures == 0 || rec.consecutive_successes == 0);
        assert!(rec.consecutive_failures > 0 || rec.consecutive_successes > 0);
    }
}

#[test]
fn terminal_states_are_idempotent() {
    let mut h = store(&["a"], 2, 2);
    let a = "a".to_string();
    // already healthy: successes keep it healthy
    for t in 0..5 {
        h.apply_probe(&a, ProbeOutcome::Success, t);
        assert!(h.get_status(&a).unwrap().healthy);
    }
    // drive unhealthy, then failures keep it unhealthy
    for t in 5..7 {
        h.apply_probe(&a, ProbeOutcome::Failure("x".to_string()), t);
    }
    assert!(!h.get_status(&a).unwrap().healthy);
    for t in 7..12 {
        h.apply_probe(&a, ProbeOutcome::Failure("x".to_string()), t);
        assert!(!h.get_status(&a).unwrap().healthy);
    }
}

#[test]
fn no_flip_before_threshold() {
    let mut h = store(&["a"], 3, 2);
    let a = "a".to_string();
    h.apply_probe(&a, ProbeOutcome::Failure("x".to_string()), 0);
    assert!(h.get_status(&a).unwrap().healthy);
    h.apply_probe(&a, ProbeOutcome::Failure("x".to_string()), 1);
    assert!(h.get_status(&a).unwrap().healthy);
    h.apply_probe(&a, ProbeOutcome::Failure("x".to_string()), 2);
    assert!(!h.get_status(&a).unwrap().healthy);
}

#[test]
fn success_clears_error_and_failure_records_it() {
    let mut h = store(&["a"], 3, 2);
    let a = "a".to_string();
    h.apply_probe(&a, ProbeOutcome::Failure("status 503".to_string()), 9);
    let rec = h.get_status(&a).unwrap();
    assert_eq!(rec.last_error.as_deref(), Some("status 503"));
    assert_eq!(rec.last_check_time, Some(9));
    h.apply_probe(&a, ProbeOutcome::Success, 10);
    let rec = h.get_status(&a).unwrap();
    assert!(rec.last_error.is_none());
    assert_eq!(rec.last_check_time, Some(10));
}

#[test]
fn probing_unknown_label_changes_nothing() {
    let mut h = store(&["a"], 3, 2);
    h.apply_probe(&"ghost".to_string(), ProbeOutcome::Failure("x".to_string()), 0);
    let all = h.get_all_statuses();
    assert_eq!(all.len(), 1);
    assert_eq!(all[0].0, "a");
    assert!(all[0].1.healthy);
    assert_eq!(all[0].1.consecutive_failures, 0);
}

#[test]
fn get_all_statuses_lists_pool_in_order() {
    let mut h = store(&["a", "b", "c"], 3, 2);
    h.apply_probe(&"b".to_string(), ProbeOutcome::Failure("x".to_string()), 1);
    let all = h.get_all_statuses();
    let labels: Vec<&str> = all.iter().map(|p| p.0.as_str()).collect();
    assert_eq!(labels, vec!["a", "b", "c"]);
    assert_eq!(all[1].1.consecutive_failures, 1);
    assert_eq!(all[0].1.consecutive_failures, 0);
}
