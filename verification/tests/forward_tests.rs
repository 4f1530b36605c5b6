use rpc_proxy::config::{Backend, Config, HealthCheckConfig, ProxyConfig};
use rpc_proxy::dispatch::AppState;
use rpc_proxy::extract::extract_rpc_method;
use rpc_proxy::forward::{
    build_upstream_uri, host_header_value, no_backends_reply, plan_proxy, proxy_error_reply,
    strip_api_key, timeout_reply, unauthorized_reply, Params, ProxyPlan,
};
use rpc_proxy::health::ProbeOutcome;

fn backend(label: &str, url: &str, weight: u32) -> Backend {
    Backend { label: label.to_string(), url: url.to_string(), weight }
}

fn config(backends: Vec<Backend>, routes: &[(&str, &str)]) -> Config {
    Config {
        port: 8080,
        api_keys: vec!["k".to_string()],
        backends,
        method_routes: routes.iter().map(|(m, l)| (m.to_string(), l.to_string())).collect(),
        health_check: HealthCheckConfig::default(),
        proxy: ProxyConfig::default(),
    }
}

fn bytes(s: &str) -> Vec<u8> {
    s.as_bytes().to_vec()
}

#[test]
fn strip_removes_api_key_suffix() {
    assert_eq!(strip_api_key(&bytes("/?api-key=secret")), bytes("/"));
    assert_eq!(strip_api_key(&bytes("/path?api-key=abc")), bytes("/path"));
    assert_eq!(strip_api_key(&bytes("/path")), bytes("/path"));
    assert_eq!(strip_api_key(&bytes("/a?x=1&y=2?api-key=k")), bytes("/a?x=1&y=2"));
    assert_eq!(strip_api_key(&bytes("")), bytes(""));
}

#[test]
fn strip_cuts_at_first_marker() {
    assert_eq!(
        strip_api_key(&bytes("/p?api-key=a?api-key=b")),
        bytes("/p")
    );
}

#[test]
fn build_uri_root_path_drops_trailing_slash() {
    assert_eq!(build_upstream_uri(&bytes("http://a.test/"), &bytes("/")), bytes("http://a.test"));
    assert_eq!(build_upstream_uri(&bytes("http://a.test"), &bytes("/")), bytes("http://a.test"));
}

#[test]
fn build_uri_avoids_double_slash() {
    assert_eq!(
        build_upstream_uri(&bytes("http://a.test/"), &bytes("/v1/rpc")),
        bytes("http://a.test/v1/rpc")
    );
    assert_eq!(
        build_upstream_uri(&bytes("http://a.test"), &bytes("/v1/rpc")),
        bytes("http://a.test/v1/rpc")
    );
}

#[test]
fn happy_path_single_backend() {
    // POST to /?api-key=k with one backend: forwarded to the bare
    // backend origin with the api key stripped
    let c = config(vec![backend("a", "http://a.test/", 1)], &[]);
    let (state, health) = AppState::from_config(c);
    let params = Params { api_key: Some("k".to_string()) };
    let body = bytes(r#"{"jsonrpc":"2.0","method":"getSlot","id":1}"#);
    let (tag, forwarded) = extract_rpc_method(body.clone());
    assert_eq!(forwarded, body);
    assert_eq!(tag.as_deref(), Some("getSlot"));
    let plan = plan_proxy(&state, &health, &params, tag.as_ref(), &bytes("/?api-key=k"));
    match plan {
        ProxyPlan::Forward { label, uri } => {
            assert_eq!(label, "a");
            assert_eq!(uri, bytes("http://a.test"));
            let uri_text = String::from_utf8(uri).unwrap();
            assert!(!uri_text.contains("?api-key="));
        }
        _ => panic!("expected a forwarding plan"),
    }
}

#[test]
fn auth_rejection_plans_401() {
    let c = config(vec![backend("a", "http://a.test/", 1)], &[]);
    let (state, health) = AppState::from_config(c);
    let wrong = Params { api_key: Some("wrong".to_string()) };
    assert!(matches!(
        plan_proxy(&state, &health, &wrong, None, &bytes("/?api-key=wrong")),
        ProxyPlan::Unauthorized
    ));
    let missing = Params { api_key: None };
    assert!(matches!(
        plan_proxy(&state, &health, &missing, None, &bytes("/")),
        ProxyPlan::Unauthorized
    ));
    let reply = unauthorized_reply();
    assert_eq!(reply.status, 401);
    assert_eq!(reply.body, "Unauthorized");
}

#[test]
fn no_healthy_backends_plans_503() {
    let c = config(
        vec![backend("a", "http://a.test/", 1), backend("b", "http://b.test/", 1)],
        &[],
    );
    let (state, mut health) = AppState::from_config(c);
    for label in ["a", "b"] {
        for t in 0..3 {
            health.apply_probe(&label.to_string(), ProbeOutcome::Failure("x".to_string()), t);
        }
    }
    let params = Params { api_key: Some("k".to_string()) };
    assert!(matches!(
        plan_proxy(&state, &health, &params, None, &bytes("/?api-key=k")),
        ProxyPlan::NoHealthyBackends
    ));
    let reply = no_backends_reply();
    assert_eq!(reply.status, 503);
    assert_eq!(reply.body, "No healthy backends available");
}

#[test]
fn override_forwards_to_routed_backend() {
    let c = config(
        vec![backend("a", "http://a.test/", 1), backend("b", "http://b.test/", 1)],
        &[("getBlock", "b")],
    );
    let (state, health) = AppState::from_config(c);
    let params = Params { api_key: Some("k".to_string()) };
    let m = "getBlock".to_string();
    let plan = plan_proxy(&state, &health, &params, Some(&m), &bytes("/?api-key=k"));
    match plan {
        ProxyPlan::Forward { label, uri } => {
            assert_eq!(label, "b");
            assert_eq!(uri, bytes("http://b.test"));
        }
        _ => panic!("expected a forwarding plan"),
    }
}

#[test]
fn forwarded_path_keeps_other_query_parameters() {
    let c = config(vec![backend("a", "http://a.test", 1)], &[]);
    let (state, health) = AppState::from_config(c);
    let params = Params { api_key: Some("k".to_string()) };
    let plan = plan_proxy(
        &state,
        &health,
        &params,
        None,
        &bytes("/v1/rpc?mode=fast?api-key=k"),
    );
    match plan {
        ProxyPlan::Forward { uri, .. } => {
            assert_eq!(uri, bytes("http://a.test/v1/rpc?mode=fast"));
        }
        _ => panic!("expected a forwarding plan"),
    }
}

#[test]
fn error_replies_carry_exact_bodies() {
    let transport = proxy_error_reply(&"connection refused".to_string());
    assert_eq!(transport.status, 502);
    assert_eq!(transport.body, "Proxy error: connection refused");
    let timed_out = timeout_reply(30);
    assert_eq!(timed_out.status, 504);
    assert_eq!(timed_out.body, "Upstream request timed out after 30s");
    let timed_out = timeout_reply(7);
    assert_eq!(timed_out.body, "Upstream request timed out after 7s");
}

#[test]
fn extractor_is_byte_transparent() {
    let cases: Vec<Vec<u8>> = vec![
        bytes(r#"{"jsonrpc":"2.0","method":"getSlot","id":1}"#),
        bytes(r#"{"no_method":true}"#),
        bytes("not json at all"),
        bytes(""),
        vec![0xff, 0xfe, 0x00, 0x41],
    ];
    for body in cases {
        let (_, forwarded) = extract_rpc_method(body.clone());
        assert_eq!(forwarded, body);
    }
}

#[test]
fn extractor_reads_method_only_from_string_field() {
    let (tag, _) = extract_rpc_method(bytes(r#"{"method":"getBlock"}"#));
    assert_eq!(tag.as_deref(), Some("getBlock"));
    let (tag, _) = extract_rpc_method(bytes(r#"{"method":42}"#));
    assert!(tag.is_none());
    let (tag, _) = extract_rpc_method(bytes(r#"["method","getBlock"]"#));
    assert!(tag.is_none());
    let (tag, _) = extract_rpc_method(bytes("{broken"));
    assert!(tag.is_none());
}

#[test]
fn host_header_value_appends_explicit_port() {
    assert_eq!(host_header_value(&"b.test".to_string(), Some(8899)), "b.test:8899");
    assert_eq!(host_header_value(&"a.test".to_string(), None), "a.test");
}
