#![allow(unused_mut)]
use tc_otel::models::{MetricKind, MetricValue};
use tc_otel::mqtt_health_metrics::MqttHealthCollector;
use tc_otel::time::Timestamp;

const NOW: Timestamp = Timestamp { secs: 1_700_000_000, nanos: 0 };

fn number(v: MetricValue) -> f64 {
    match v {
        MetricValue::Lreal(x) => f64::from_bits(x.0),
        MetricValue::Signed(n) => n as f64,
        MetricValue::Unsigned(n) => n as f64,
        MetricValue::Ratio(a, b) => a as f64 / b as f64,
    }
}

#[test]
fn test_collect_returns_four_metrics_initially() {
    let mut collector = MqttHealthCollector::new("svc".to_string());
    let metrics = collector.collect(NOW);
    // Initially: connected, reconnect, publish_errors, incoming_frames
    // (subscribe_latency only emitted after recording)
    assert_eq!(metrics.len(), 4);
}

#[test]
fn test_broker_connected_gauge() {
    let mut collector = MqttHealthCollector::new("svc".to_string());
    let metrics = collector.collect(NOW);
    let connected = metrics
        .iter()
        .find(|m| m.name == "ads_mqtt_broker_connected")
        .unwrap();
    assert_eq!(connected.kind, MetricKind::Gauge);
    assert_eq!(number(connected.value), 0.0);
}

#[test]
fn test_broker_connected_updates() {
    let mut collector = MqttHealthCollector::new("svc".to_string());
    let metrics_before = collector.collect(NOW);
    let before_value = metrics_before
        .iter()
        .find(|m| m.name == "ads_mqtt_broker_connected")
        .unwrap()
        .value;
    assert_eq!(number(before_value), 0.0);

    collector.record_connected();
    let metrics_after = collector.collect(NOW);
    let after_value = metrics_after
        .iter()
        .find(|m| m.name == "ads_mqtt_broker_connected")
        .unwrap()
        .value;
    assert_eq!(number(after_value), 1.0);
}

#[test]
fn test_reconnect_counter_increments() {
    let mut collector = MqttHealthCollector::new("svc".to_string());
    for _ in 0..3 {
        collector.record_reconnect();
    }
    let metrics = collector.collect(NOW);
    let reconnect = metrics
        .iter()
        .find(|m| m.name == "ads_mqtt_reconnect_total")
        .unwrap();
    assert_eq!(reconnect.kind, MetricKind::Sum);
    assert!(reconnect.is_monotonic);
    assert_eq!(number(reconnect.value), 3.0);
}

#[test]
fn test_publish_errors_counter() {
    let mut collector = MqttHealthCollector::new("svc".to_string());
    collector.record_publish_error();
    collector.record_publish_error();
    let metrics = collector.collect(NOW);
    let errors = metrics
        .iter()
        .find(|m| m.name == "ads_mqtt_publish_errors_total")
        .unwrap();
    assert_eq!(errors.kind, MetricKind::Sum);
    assert_eq!(number(errors.value), 2.0);
}

#[test]
fn test_incoming_frames_counter() {
    let mut collector = MqttHealthCollector::new("svc".to_string());
    for _ in 0..5 {
        collector.record_incoming_frame();
    }
    let metrics = collector.collect(NOW);
    let frames = metrics
        .iter()
        .find(|m| m.name == "ads_mqtt_incoming_frames_total")
        .unwrap();
    assert_eq!(number(frames.value), 5.0);
}

#[test]
fn test_subscribe_latency_histogram_not_emitted_initially() {
    let mut collector = MqttHealthCollector::new("svc".to_string());
    let metrics = collector.collect(NOW);
    let latency = metrics
        .iter()
        .find(|m| m.name == "ads_mqtt_subscribe_latency_seconds");
    assert!(latency.is_none());
}

#[test]
fn test_subscribe_latency_histogram_emitted_after_recording() {
    let mut collector = MqttHealthCollector::new("svc".to_string());
    collector.record_subscribe_latency_ms(250);
    let metrics = collector.collect(NOW);
    assert_eq!(metrics.len(), 5);
    let latency = metrics
        .iter()
        .find(|m| m.name == "ads_mqtt_subscribe_latency_seconds")
        .unwrap();
    assert_eq!(latency.kind, MetricKind::Histogram);
    assert_eq!(number(latency.histogram_sum), 0.25);
    assert_eq!(latency.histogram_count, 1);
}

#[test]
fn test_subscribe_latency_recorded_once() {
    let mut collector = MqttHealthCollector::new("svc".to_string());
    collector.record_subscribe_latency_ms(100);
    collector.record_subscribe_latency_ms(200);
    let metrics = collector.collect(NOW);
    let latency = metrics
        .iter()
        .find(|m| m.name == "ads_mqtt_subscribe_latency_seconds")
        .unwrap();
    assert_eq!(number(latency.histogram_sum), 0.1); // First value recorded
}

#[test]
fn test_metrics_have_correct_attributes() {
    let mut collector = MqttHealthCollector::new("my-service".to_string());
    let metrics = collector.collect(NOW);
    for metric in metrics {
        assert_eq!(metric.project_name, "my-service");
        assert_eq!(metric.source, "tc-otel");
        assert!(!metric.description.is_empty());
        assert!(!metric.unit.is_empty());
    }
}

#[test]
fn test_subscription_histogram_bins_observation_correctly() {
    let mut collector = MqttHealthCollector::new("svc".to_string());
    // Record a latency of 0.003 seconds (3ms), which falls in the second bucket
    // (0.001-0.005 boundary, since 0.003 is >= 0.001 and < 0.005)
    collector.record_subscribe_latency_ms(3);
    let metrics = collector.collect(NOW);
    let latency = metrics
        .iter()
        .find(|m| m.name == "ads_mqtt_subscribe_latency_seconds")
        .unwrap();
    assert_eq!(latency.histogram_count, 1);
    assert_eq!(number(latency.histogram_sum), 0.003);
    // Verify the observation is in the correct bucket
    assert_eq!(latency.histogram_counts.iter().sum::<u64>(), 1);
}

#[test]
fn latency_bucket_edges() {
    for (ms, bucket) in [(0u64, 0usize), (3, 1), (5_000_000, usize::MAX)] {
        let mut collector = MqttHealthCollector::new("svc".to_string());
        collector.record_subscribe_latency_ms(ms);
        let metrics = collector.collect(NOW);
        let latency = metrics.iter().find(|m| m.kind == MetricKind::Histogram).unwrap();
        let at = latency.histogram_counts.iter().position(|&c| c == 1).unwrap();
        assert_eq!(at, bucket.min(latency.histogram_bounds.len()));
        assert_eq!(latency.histogram_counts.len(), latency.histogram_bounds.len() + 1);
    }
}
