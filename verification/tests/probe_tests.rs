use rpc_proxy::config::Backend;
use rpc_proxy::health::{HealthState, ProbeOutcome};
use rpc_proxy::health_report::build_health_response;
use rpc_proxy::probe::{classify_probe, probe_payload, ProbeObservation};

fn bytes(s: &str) -> Vec<u8> {
    s.as_bytes().to_vec()
}

#[test]
fn payload_embeds_the_configured_method() {
    assert_eq!(
        probe_payload(&"getSlot".to_string()),
        r#"{"jsonrpc":"2.0","id":1,"method":"getSlot","params":[]}"#
    );
    assert_eq!(
        probe_payload(&"getHealth".to_string()),
        r#"{"jsonrpc":"2.0","id":1,"method":"getHealth","params":[]}"#
    );
}

#[test]
fn timeout_classified_as_failure() {
    match classify_probe(ProbeObservation::TimedOut) {
        ProbeOutcome::Failure(e) => assert_eq!(e, "timeout"),
        _ => panic!("expected a failure"),
    }
}

#[test]
fn transport_error_carries_reason() {
    match classify_probe(ProbeObservation::TransportError("connection refused".to_string())) {
        ProbeOutcome::Failure(e) => assert_eq!(e, "transport: connection refused"),
        _ => panic!("expected a failure"),
    }
}

#[test]
fn non_2xx_status_is_a_failure() {
    let obs = ProbeObservation::Responded { status: 503, body: bytes(r#"{"result":1}"#) };
    match classify_probe(obs) {
        ProbeOutcome::Failure(e) => assert_eq!(e, "status 503"),
        _ => panic!("expected a failure"),
    }
}

#[test]
fn result_field_makes_a_success() {
    let obs = ProbeObservation::Responded {
        status: 200,
        body: bytes(r#"{"jsonrpc":"2.0","result":12345,"id":1}"#),
    };
    assert!(matches!(classify_probe(obs), ProbeOutcome::Success));
}

#[test]
fn error_field_without_result_is_a_failure() {
    let obs = ProbeObservation::Responded {
        status: 200,
        body: bytes(r#"{"jsonrpc":"2.0","error":{"code":-32601},"id":1}"#),
    };
    match classify_probe(obs) {
        ProbeOutcome::Failure(e) => assert_eq!(e, "rpc error: no result in response"),
        _ => panic!("expected a failure"),
    }
}

#[test]
fn unparsable_body_is_a_failure() {
    let obs = ProbeObservation::Responded { status: 200, body: bytes("not json") };
    assert!(matches!(classify_probe(obs), ProbeOutcome::Failure(_)));
}

#[test]
fn plain_json_without_error_is_a_success() {
    let obs = ProbeObservation::Responded { status: 204, body: bytes(r#"{"ok":true}"#) };
    assert!(matches!(classify_probe(obs), ProbeOutcome::Success));
}

#[test]
fn health_report_reflects_pool_state() {
    let backends = vec![
        Backend { label: "a".to_string(), url: "http://a.test/".to_string(), weight: 1 },
        Backend { label: "b".to_string(), url: "http://b.test/".to_string(), weight: 1 },
    ];
    let mut h = HealthState::new(vec!["a".to_string(), "b".to_string()], 2, 2);
    h.apply_probe(&"a".to_string(), ProbeOutcome::Failure("status 500".to_string()), 11);
    h.apply_probe(&"a".to_string(), ProbeOutcome::Failure("status 500".to_string()), 12);
    let report = build_health_response(&backends, &h);
    assert_eq!(report.overall_status, "healthy");
    assert_eq!(report.backends.len(), 2);
    assert_eq!(report.backends[0].label, "a");
    assert!(!report.backends[0].healthy);
    assert_eq!(report.backends[0].consecutive_failures, 2);
    assert_eq!(report.backends[0].last_error.as_deref(), Some("status 500"));
    assert_eq!(report.backends[0].last_check.as_deref(), Some("12"));
    assert!(report.backends[1].healthy);
    assert!(report.backends[1].last_check.is_none());
}

#[test]
fn health_report_unhealthy_when_no_backend_is_up() {
    let backends = vec![Backend {
        label: "a".to_string(),
        url: "http://a.test/".to_string(),
        weight: 1,
    }];
    let mut h = HealthState::new(vec!["a".to_string()], 1, 1);
    h.apply_probe(&"a".to_string(), ProbeOutcome::Failure("timeout".to_string()), 0);
    let report = build_health_response(&backends, &h);
    assert_eq!(report.overall_status, "unhealthy");
}
