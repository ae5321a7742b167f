use tc_otel::config::{
    CustomMetricDef, CustomMetricSource, MetricKindConfig, NotificationConfig, NotificationTransmissionMode,
};
use tc_otel::custom_metric_notifier::CustomMetricNotifier;

const SETTINGS: NotificationConfig = NotificationConfig {
    min_period_ms: 100,
    max_period_ms: 10_000,
    max_delay_ms: 5_000,
    transmission_mode: NotificationTransmissionMode::OnChange,
};

#[test]
fn test_update_subscriptions_empty() {
    let mut notifier = CustomMetricNotifier::new();

    let (added, removed) = notifier.update_subscriptions(&[]);
    assert!(added.is_empty());
    assert!(removed.is_empty());
}

#[test]
fn test_update_subscriptions_add_notification() {
    let mut notifier = CustomMetricNotifier::new();

    let metrics = vec![CustomMetricDef {
        symbol: "GVL.temperature".to_string(),
        metric_name: "plc.temperature".to_string(),
        description: "".to_string(),
        unit: "".to_string(),
        kind: MetricKindConfig::Gauge,
        is_monotonic: false,
        source: CustomMetricSource::Notification,
        ams_net_id: Some("192.168.1.1.1.1".to_string()),
        ams_port: Some(851),
        poll: None,
        notification: Some(SETTINGS),
    }];

    let (added, removed) = notifier.update_subscriptions(&metrics);
    assert_eq!(added.len(), 1);
    assert!(removed.is_empty());
    assert_eq!(added[0].symbol, "GVL.temperature");
}

#[test]
fn test_update_subscriptions_remove_notification() {
    let mut notifier = CustomMetricNotifier::new();

    let metrics = vec![CustomMetricDef {
        symbol: "GVL.temperature".to_string(),
        metric_name: "plc.temperature".to_string(),
        description: "".to_string(),
        unit: "".to_string(),
        kind: MetricKindConfig::Gauge,
        is_monotonic: false,
        source: CustomMetricSource::Notification,
        ams_net_id: Some("192.168.1.1.1.1".to_string()),
        ams_port: Some(851),
        poll: None,
        notification: Some(SETTINGS),
    }];

    // Add subscription
    let (added, _) = notifier.update_subscriptions(&metrics);
    assert_eq!(added.len(), 1);

    // Remove subscription
    let (added2, removed) = notifier.update_subscriptions(&[]);
    assert!(added2.is_empty());
    assert_eq!(removed.len(), 1);
}

fn def(symbol: &str, source: CustomMetricSource) -> CustomMetricDef {
    CustomMetricDef {
        symbol: symbol.to_string(),
        metric_name: "m".to_string(),
        description: "".to_string(),
        unit: "".to_string(),
        kind: MetricKindConfig::Gauge,
        is_monotonic: false,
        source,
        ams_net_id: None,
        ams_port: None,
        poll: None,
        notification: None,
    }
}

#[test]
fn only_differences_are_reported() {
    let mut notifier = CustomMetricNotifier::default();
    let first = vec![
        def("A", CustomMetricSource::Notification),
        def("B", CustomMetricSource::Notification),
        def("A", CustomMetricSource::Notification),
        def("P", CustomMetricSource::Poll),
    ];
    let (added, removed) = notifier.update_subscriptions(&first);
    assert_eq!(added.len(), 2);
    assert!(removed.is_empty());
    assert_eq!(added[0].ams_net_id, "");
    assert_eq!(added[0].ams_port, 851);
    let (added, removed) = notifier.update_subscriptions(&first);
    assert!(added.is_empty() && removed.is_empty());
    let second = vec![def("B", CustomMetricSource::Notification), def("C", CustomMetricSource::Notification)];
    let (added, removed) = notifier.update_subscriptions(&second);
    assert_eq!(added.iter().map(|k| k.symbol.as_str()).collect::<Vec<_>>(), vec!["C"]);
    assert_eq!(removed.iter().map(|k| k.symbol.as_str()).collect::<Vec<_>>(), vec!["A"]);
}
