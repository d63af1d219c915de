use couchestor::rustfs::monitoring::collector::{Counter, Gauge};
use couchestor::rustfs::monitoring::health::{HealthCheck, HealthCheckResult, HealthResponse, HealthStatus};
use couchestor::rustfs::VERSION;

#[test]
fn test_counter() {
    let mut counter = Counter::new();
    assert_eq!(counter.get(), 0);
    counter.inc();
    assert_eq!(counter.get(), 1);
    counter.add(10);
    assert_eq!(counter.get(), 11);
    counter.reset();
    assert_eq!(counter.get(), 0);
}

#[test]
fn test_gauge() {
    let mut gauge = Gauge::new();
    assert_eq!(gauge.get(), 0);
    gauge.set(100);
    assert_eq!(gauge.get(), 100);
    gauge.inc();
    assert_eq!(gauge.get(), 101);
    gauge.dec();
    assert_eq!(gauge.get(), 100);
}

#[test]
fn gauge_dec_at_zero_wraps() {
    let mut gauge = Gauge::new();
    gauge.dec();
    assert_eq!(gauge.get(), u64::MAX);
    gauge.inc();
    assert_eq!(gauge.get(), 0);
}

#[test]
fn test_health_status() {
    assert!(HealthStatus::Healthy.is_healthy());
    assert!(HealthStatus::Healthy.is_operational());
    assert!(!HealthStatus::Degraded.is_healthy());
    assert!(HealthStatus::Degraded.is_operational());
    assert!(!HealthStatus::Unhealthy.is_healthy());
    assert!(!HealthStatus::Unhealthy.is_operational());
}

#[test]
fn health_test_health_status_display() {
    assert_eq!(HealthStatus::Healthy.to_string(), "Healthy");
    assert_eq!(HealthStatus::Degraded.to_string(), "Degraded");
    assert_eq!(HealthStatus::Unhealthy.to_string(), "Unhealthy");
}

#[test]
fn test_health_check_result() {
    let healthy = HealthCheckResult::healthy("test");
    assert_eq!(healthy.status, HealthStatus::Healthy);
    assert!(healthy.message.is_none());

    let degraded = HealthCheckResult::degraded("test", "slow");
    assert_eq!(degraded.status, HealthStatus::Degraded);
    assert_eq!(degraded.message, Some("slow".to_string()));

    let unhealthy = HealthCheckResult::unhealthy("test", "failed");
    assert_eq!(unhealthy.status, HealthStatus::Unhealthy);
}

#[test]
fn test_health_check_manager() {
    let mut health = HealthCheck::new();
    assert!(health.is_live());
    assert!(!health.is_ready());
    health.set_ready(true);
    assert!(health.is_ready());
    health.set_live(false);
    assert!(!health.is_live());
}

#[test]
fn test_health_response() {
    let checks = vec![HealthCheckResult::healthy("check1"), HealthCheckResult::degraded("check2", "slow")];
    let response = HealthResponse::new(checks, 60);
    assert_eq!(response.status, HealthStatus::Degraded);
    assert_eq!(response.uptime_seconds, 60);
}

#[test]
fn test_health_check_all() {
    let mut health = HealthCheck::new();
    health.set_ready(true);
    let response = health.check_all();
    assert_eq!(response.status, HealthStatus::Healthy);
    assert_eq!(response.checks.len(), 2);
}

#[test]
fn health_test_uptime() {
    let health = HealthCheck::new();
    let t = std::time::Instant::now();
    while t.elapsed() < std::time::Duration::from_millis(10) {}
    assert!(health.uptime() >= 10);
}

#[test]
fn test_module_exists() {
    assert!(true);
}

#[test]
fn worst_status_wins() {
    let checks = vec![
        HealthCheckResult::degraded("a", "slow"),
        HealthCheckResult::unhealthy("b", "down"),
        HealthCheckResult::healthy("c"),
    ];
    let response = HealthResponse::new(checks, 1);
    assert_eq!(response.status, HealthStatus::Unhealthy);
    assert_eq!(response.version, VERSION);
    assert_eq!(HealthResponse::new(Vec::new(), 0).status, HealthStatus::Healthy);
}

#[test]
fn not_ready_service_is_unhealthy() {
    let health = HealthCheck::new();
    let response = health.check_all();
    assert_eq!(response.status, HealthStatus::Unhealthy);
    assert_eq!(health.readiness(), HealthStatus::Unhealthy);
    assert_eq!(health.liveness(), HealthStatus::Healthy);
    assert_eq!(health.readiness_check().status, HealthStatus::Unhealthy);
}

#[test]
fn with_duration_sets_time() {
    let r = HealthCheckResult::healthy("x").with_duration(25);
    assert_eq!(r.duration_ms, 25);
    assert_eq!(r.name, "x");
}
