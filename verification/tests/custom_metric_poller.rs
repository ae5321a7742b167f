use tc_otel::config::{CustomMetricDef, CustomMetricSource, MetricKindConfig, PollConfig};
use tc_otel::custom_metric_poller::{CustomMetricPoller, PollMetricConfig};
use tc_otel::models::MetricKind;

#[test]
fn test_poll_metric_config_from_def() {
    let def = CustomMetricDef {
        symbol: "GVL.temperature".to_string(),
        metric_name: "plc.temperature".to_string(),
        description: "Temperature sensor".to_string(),
        unit: "Cel".to_string(),
        kind: MetricKindConfig::Gauge,
        is_monotonic: false,
        source: CustomMetricSource::Poll,
        ams_net_id: Some("192.168.1.1.1.1".to_string()),
        ams_port: Some(851),
        poll: Some(PollConfig { interval_ms: 1000 }),
        notification: None,
    };

    let config = PollMetricConfig::from(&def);
    assert_eq!(config.symbol, "GVL.temperature");
    assert_eq!(config.metric_name, "plc.temperature");
    assert_eq!(config.description, "Temperature sensor");
    assert_eq!(config.unit, "Cel");
}

#[test]
fn nothing_to_poll_is_not_scheduled() {
    let idle = CustomMetricPoller::new("1.1.1.1.1.1".to_string(), 851, 500, vec![]);
    assert_eq!(idle.schedule(), None);
    let config = PollMetricConfig {
        symbol: "A".to_string(),
        metric_name: "a".to_string(),
        description: String::new(),
        unit: String::new(),
        kind: MetricKind::Sum,
        is_monotonic: true,
    };
    let busy = CustomMetricPoller::new("1.1.1.1.1.1".to_string(), 851, 500, vec![config]);
    assert_eq!(busy.schedule(), Some(500));
    assert_eq!(busy.ams_net_id(), "1.1.1.1.1.1");
    assert_eq!(busy.ams_port(), 851);
}
