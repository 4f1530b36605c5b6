use rpc_proxy::config::{
    default_weight, validate_config, Backend, Config, ConfigError, HealthCheckConfig,
    ProxyConfig,
};
use rpc_proxy::digits::u64_to_string;

fn backend(label: &str, url: &str, weight: u32) -> Backend {
    Backend { label: label.to_string(), url: url.to_string(), weight }
}

fn valid_config() -> Config {
    Config {
        port: 8080,
        api_keys: vec!["k".to_string()],
        backends: vec![backend("a", "http://a.test/", 1), backend("b", "http://b.test/", 2)],
        method_routes: vec![("getBlock".to_string(), "b".to_string())],
        health_check: HealthCheckConfig::default(),
        proxy: ProxyConfig::default(),
    }
}

#[test]
fn valid_config_passes() {
    assert!(validate_config(&valid_config()).is_ok());
}

#[test]
fn empty_api_keys_rejected() {
    let mut c = valid_config();
    c.api_keys.clear();
    let err = validate_config(&c).unwrap_err();
    assert!(matches!(err, ConfigError::NoApiKeys));
    assert_eq!(err.message(), "At least one API key must be configured");
}

#[test]
fn empty_backends_rejected() {
    let mut c = valid_config();
    c.backends.clear();
    let err = validate_config(&c).unwrap_err();
    assert!(matches!(err, ConfigError::NoBackends));
    assert_eq!(err.message(), "At least one backend must be configured");
}

#[test]
fn duplicate_labels_rejected() {
    let mut c = valid_config();
    c.backends.push(backend("a", "http://c.test/", 1));
    let err = validate_config(&c).unwrap_err();
    assert!(matches!(err, ConfigError::DuplicateLabel));
    assert_eq!(err.message(), "Duplicate backend labels found in configuration");
}

#[test]
fn zero_weight_rejected() {
    let mut c = valid_config();
    c.backends[1].weight = 0;
    let err = validate_config(&c).unwrap_err();
    assert_eq!(err.message(), "Backend 'b' has invalid weight 0");
}

#[test]
fn empty_label_rejected() {
    let mut c = valid_config();
    c.backends[0].label = String::new();
    let err = validate_config(&c).unwrap_err();
    assert_eq!(err.message(), "Backend with URL 'http://a.test/' has empty label");
}

#[test]
fn zero_proxy_timeout_rejected() {
    let mut c = valid_config();
    c.proxy.timeout_secs = 0;
    let err = validate_config(&c).unwrap_err();
    assert!(matches!(err, ConfigError::ZeroProxyTimeout));
    assert_eq!(err.message(), "Proxy timeout_secs must be > 0");
}

#[test]
fn zero_thresholds_rejected() {
    let mut c = valid_config();
    c.health_check.consecutive_successes_threshold = 0;
    let err = validate_config(&c).unwrap_err();
    assert!(matches!(err, ConfigError::ZeroThreshold));
}

#[test]
fn unknown_route_label_rejected() {
    let mut c = valid_config();
    c.method_routes.push(("getSlot".to_string(), "ghost".to_string()));
    let err = validate_config(&c).unwrap_err();
    assert_eq!(
        err.message(),
        "Method route 'getSlot' references unknown backend label 'ghost'"
    );
}

#[test]
fn oversized_total_weight_rejected() {
    let mut c = valid_config();
    c.backends = vec![
        backend("a", "http://a.test/", u32::MAX),
        backend("b", "http://b.test/", 1),
    ];
    let err = validate_config(&c).unwrap_err();
    assert!(matches!(err, ConfigError::TotalWeightTooLarge));
}

#[test]
fn defaults_match_documentation() {
    let hc = HealthCheckConfig::default();
    assert_eq!(hc.interval_secs, 30);
    assert_eq!(hc.timeout_secs, 5);
    assert_eq!(hc.method, "getSlot");
    assert_eq!(hc.consecutive_failures_threshold, 3);
    assert_eq!(hc.consecutive_successes_threshold, 2);
    let p = ProxyConfig::default();
    assert_eq!(p.timeout_secs, 30);
    assert_eq!(default_weight(), 1);
}

#[test]
fn decimal_rendering_is_exact() {
    assert_eq!(u64_to_string(0), "0");
    assert_eq!(u64_to_string(7), "7");
    assert_eq!(u64_to_string(30), "30");
    assert_eq!(u64_to_string(65535), "65535");
    assert_eq!(u64_to_string(u64::MAX), "18446744073709551615");
}

#[test]
fn config_error_precedence_follows_loader_order() {
    let mut c = valid_config();
    c.api_keys.clear();
    c.backends[1].weight = 0;
    // the missing api keys are reported first
    assert!(matches!(validate_config(&c).unwrap_err(), ConfigError::NoApiKeys));
}
