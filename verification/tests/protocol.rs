use tc_otel::keymap::KeyMap;
use tc_otel::models::{JsonScalar, Lreal, MetricKind, SpanKind, SpanStatusCode};
use tc_otel::protocol::{AdsMetricEntry, AdsProtocolVersion, AdsSpanEntry, AdsSpanEvent};
use tc_otel::time::Timestamp;

const NOW: Timestamp = Timestamp { secs: 1_700_000_000, nanos: 0 };

fn lreal(x: f64) -> Lreal {
    Lreal(x.to_bits())
}

#[test]
fn test_ads_version_conversion() {
    assert_eq!(AdsProtocolVersion::from_u8(1), Some(AdsProtocolVersion::V1));
    assert_eq!(AdsProtocolVersion::from_u8(255), None);
}

#[test]
fn test_ads_span_entry_creation() {
    let entry = AdsSpanEntry {
        trace_id: [1u8; 16],
        span_id: [2u8; 8],
        parent_span_id: [0u8; 8],
        name: "motion.axis_move".to_string(),
        kind: SpanKind::Internal,
        status_code: SpanStatusCode::Okay,
        status_message: String::new(),
        start_time: NOW,
        end_time: NOW,
        task_index: 1,
        task_cycle_counter: 500,
        attributes: KeyMap::new(),
        events: Vec::new(),
    };

    assert_eq!(entry.name, "motion.axis_move");
    assert_eq!(entry.kind, SpanKind::Internal);
}

#[test]
fn test_ads_metric_entry_gauge() {
    let entry = AdsMetricEntry {
        name: "plc.motor.temperature".to_string(),
        description: "Motor temperature".to_string(),
        unit: "Cel".to_string(),
        kind: MetricKind::Gauge,
        value: lreal(72.5),
        timestamp: NOW,
        task_index: 1,
        task_cycle_counter: 500,
        is_monotonic: false,
        attributes: KeyMap::new(),
        histogram_bounds: Vec::new(),
        histogram_counts: Vec::new(),
        histogram_count: 0,
        histogram_sum: lreal(0.0),
    };

    assert_eq!(entry.name, "plc.motor.temperature");
    assert_eq!(entry.kind, MetricKind::Gauge);
    assert_eq!(f64::from_bits(entry.value.0), 72.5);
}

#[test]
fn test_ads_metric_entry_sum() {
    let entry = AdsMetricEntry {
        name: "plc.parts_produced".to_string(),
        description: "Total parts produced".to_string(),
        unit: "{count}".to_string(),
        kind: MetricKind::Sum,
        value: lreal(1234.0),
        timestamp: NOW,
        task_index: 1,
        task_cycle_counter: 1000,
        is_monotonic: true,
        attributes: KeyMap::new(),
        histogram_bounds: Vec::new(),
        histogram_counts: Vec::new(),
        histogram_count: 0,
        histogram_sum: lreal(0.0),
    };

    assert_eq!(entry.kind, MetricKind::Sum);
    assert!(entry.is_monotonic);
    assert_eq!(f64::from_bits(entry.value.0), 1234.0);
}

#[test]
fn test_ads_metric_entry_histogram() {
    let entry = AdsMetricEntry {
        name: "plc.cycle_time".to_string(),
        description: "PLC task cycle time".to_string(),
        unit: "ms".to_string(),
        kind: MetricKind::Histogram,
        value: lreal(0.0),
        timestamp: NOW,
        task_index: 1,
        task_cycle_counter: 2000,
        is_monotonic: false,
        attributes: KeyMap::new(),
        histogram_bounds: vec![lreal(1.0), lreal(5.0), lreal(10.0), lreal(50.0)],
        histogram_counts: vec![10, 25, 12, 3, 1],
        histogram_count: 51,
        histogram_sum: lreal(320.5),
    };

    assert_eq!(entry.kind, MetricKind::Histogram);
    assert_eq!(entry.histogram_bounds.len(), 4);
    assert_eq!(entry.histogram_counts.len(), 5);
    assert_eq!(entry.histogram_count, 51);
}

#[test]
fn test_ads_span_event_creation() {
    let event = AdsSpanEvent {
        timestamp: NOW,
        name: "axis.target_reached".to_string(),
        attributes: {
            let mut m: KeyMap<String, JsonScalar> = KeyMap::new();
            m.insert("position".to_string(), JsonScalar::Lreal(lreal(100.0)));
            m
        },
    };

    assert_eq!(event.name, "axis.target_reached");
    assert_eq!(event.attributes.len(), 1);
}

#[test]
fn versions_have_their_bytes() {
    assert_eq!(AdsProtocolVersion::V1.as_u8(), 1);
    assert_eq!(AdsProtocolVersion::V2.as_u8(), 2);
    assert_eq!(AdsProtocolVersion::from_u8(2), Some(AdsProtocolVersion::V2));
    assert_eq!(AdsProtocolVersion::from_u8(0), None);
}
