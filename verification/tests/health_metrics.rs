use tc_otel::connection_manager::{ConnectionConfig, ConnectionManager};
use tc_otel::health_metrics::AdsHealthCollector;
use tc_otel::models::{MetricKind, MetricValue};
use tc_otel::time::{Tick, Timestamp};

const NOW: Timestamp = Timestamp { secs: 1_700_000_000, nanos: 0 };

fn number(v: MetricValue) -> f64 {
    match v {
        MetricValue::Lreal(x) => f64::from_bits(x.0),
        MetricValue::Signed(n) => n as f64,
        MetricValue::Unsigned(n) => n as f64,
        MetricValue::Ratio(a, b) => a as f64 / b as f64,
    }
}

fn ip(last: u8) -> String {
    format!("10.0.0.{}", last)
}

#[test]
fn test_collect_returns_seven_metrics() {
    let mgr = ConnectionManager::new(ConnectionConfig::default());
    let collector = AdsHealthCollector::new("svc".to_string());
    assert_eq!(collector.collect(&mgr, NOW).len(), 7);
}

#[test]
fn test_gauge_kind() {
    let mgr = ConnectionManager::new(ConnectionConfig::default());
    let collector = AdsHealthCollector::new("svc".to_string());
    let metrics = collector.collect(&mgr, NOW);
    let active = metrics
        .iter()
        .find(|m| m.name == "ads.connections.active")
        .unwrap();
    assert_eq!(active.kind, MetricKind::Gauge);
}

#[test]
fn test_counter_kind_and_monotonic() {
    let mgr = ConnectionManager::new(ConnectionConfig::default());
    let collector = AdsHealthCollector::new("svc".to_string());
    let metrics = collector.collect(&mgr, NOW);
    let accepted = metrics
        .iter()
        .find(|m| m.name == "ads.connections.accepted")
        .unwrap();
    assert_eq!(accepted.kind, MetricKind::Sum);
    assert!(accepted.is_monotonic);
}

#[test]
fn test_utilization_zero_when_empty() {
    let mgr = ConnectionManager::new(ConnectionConfig::default());
    let collector = AdsHealthCollector::new("svc".to_string());
    let metrics = collector.collect(&mgr, NOW);
    let util = metrics
        .iter()
        .find(|m| m.name == "ads.connections.utilization")
        .unwrap();
    assert_eq!(number(util.value), 0.0);
}

#[test]
fn test_active_reflects_connections() {
    let config = ConnectionConfig {
        max_connections: 100,
        max_connections_per_ip: 50,
        rate_limit_per_sec_per_ip: 100,
        ..Default::default()
    };
    let mut mgr = ConnectionManager::new(config);
    let _p = mgr.try_acquire(&ip(1), Tick { nanos: 0 }).unwrap();

    let collector = AdsHealthCollector::new("svc".to_string());
    let metrics = collector.collect(&mgr, NOW);
    let active = metrics
        .iter()
        .find(|m| m.name == "ads.connections.active")
        .unwrap();
    assert_eq!(number(active.value), 1.0);
}

#[test]
fn utilization_is_the_share_of_the_limit() {
    let mut mgr = ConnectionManager::new(ConnectionConfig { max_connections: 4, ..Default::default() });
    let _p = mgr.try_acquire(&ip(1), Tick { nanos: 0 }).unwrap();
    let metrics = AdsHealthCollector::new("svc".to_string()).collect(&mgr, NOW);
    let util = metrics.iter().find(|m| m.name == "ads.connections.utilization").unwrap();
    assert_eq!(util.value, MetricValue::Ratio(1, 4));
    assert_eq!(util.timestamp, NOW);
    assert_eq!(util.project_name, "svc");
}
