use mxindex::metrics::Metrics;
use mxindex::rate_limit::RateLimiterState;

#[test]
fn zero_budget_disables_limiting() {
    let mut limiter = RateLimiterState::new(0);
    for _ in 0..100 {
        assert!(limiter.check_at("client", 0).is_ok());
    }
}

#[test]
fn budget_is_enforced_within_a_window() {
    let mut limiter = RateLimiterState::new(2);
    assert!(limiter.check_at("client", 100).is_ok());
    assert!(limiter.check_at("client", 110).is_ok());
    assert!(limiter.check_at("client", 120).is_err());
    // another client has its own budget
    assert!(limiter.check_at("other", 120).is_ok());
}

#[test]
fn window_resets_after_a_quiet_minute() {
    let mut limiter = RateLimiterState::new(1);
    assert!(limiter.check_at("client", 100).is_ok());
    assert!(limiter.check_at("client", 130).is_err());
    assert!(limiter.check_at("client", 160).is_ok());
}

#[test]
fn wall_clock_check_runs() {
    let mut limiter = RateLimiterState::new(60);
    assert!(limiter.check("client").is_ok());
}

#[test]
fn test_metrics_initialization() {
    let metrics = Metrics::new();
    assert!(!metrics.encode().is_empty());
}

#[test]
fn test_encode_output() {
    let metrics = Metrics::new();
    let output = metrics.encode();
    assert!(output.contains("servers_indexed"));
}

#[test]
fn metrics_encode_lists_the_gauges() {
    let mut metrics = Metrics::new();
    metrics.set_servers_indexed(7);
    metrics.set_servers_online(5);
    metrics.set_servers_offline(2);
    let text = metrics.encode();
    assert!(text.contains("servers_indexed 7\n"));
    assert!(text.contains("servers_online 5\n"));
    assert!(text.contains("servers_offline 2\n"));
    assert!(text.contains("discovery_errors_total 0\n"));
    assert!(text.contains("# TYPE http_requests_total counter\n"));
}

#[test]
fn metrics_counters_accept_increments() {
    let mut metrics = Metrics::new();
    metrics.increment_http_requests("GET", "/servers", "200");
    metrics.increment_http_requests("GET", "/servers", "200");
    metrics.increment_http_requests("POST", "/servers", "400");
    metrics.increment_cache_operations("get", "hit");
    metrics.increment_discovery_errors();
    let text = metrics.encode();
    assert!(text.contains("discovery_errors_total 1\n"));
}
