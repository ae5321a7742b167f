use std::cell::Cell;
use std::sync::Arc;
use tc_otel::client::error::ClientError;
use tc_otel::client::poll::{build_metric_entry, build_metric_entry_at, PollStep, Poller};
use tc_otel::client::{PlcValue, SymbolMeta, SymbolReader};
use tc_otel::config::{CustomMetricDef, CustomMetricSource, MetricKindConfig, PollConfig};
use tc_otel::models::{JsonScalar, Lreal, MetricEntry, MetricKind, MetricValue};
use tc_otel::time::Timestamp;

const NOW: Timestamp = Timestamp { secs: 1_700_000_000, nanos: 0 };

struct NopReader;

impl SymbolReader for NopReader {
    fn read_raw(&self, _: &SymbolMeta) -> Result<Vec<u8>, ClientError> {
        Ok(vec![0; 8])
    }
}

fn def_lreal(symbol: &str, name: &str) -> CustomMetricDef {
    CustomMetricDef {
        symbol: symbol.to_string(),
        metric_name: name.to_string(),
        description: "desc".into(),
        unit: "1".into(),
        kind: MetricKindConfig::Gauge,
        is_monotonic: false,
        source: CustomMetricSource::Poll,
        ams_net_id: Some("10.0.0.1.1.1".into()),
        ams_port: Some(851),
        poll: Some(PollConfig { interval_ms: 100 }),
        notification: None,
    }
}

#[test]
fn build_gauge_entry_populates_attributes() {
    let def = def_lreal("MAIN.fTemp", "plc.temp");
    let entry = build_metric_entry(&def, PlcValue::F64(Lreal(42.0_f64.to_bits())));
    assert_eq!(entry.name, "plc.temp");
    assert_eq!(entry.value, MetricValue::Lreal(Lreal(42.0_f64.to_bits())));
    assert_eq!(entry.kind, MetricKind::Gauge);
    assert_eq!(entry.unit, "1");
    assert_eq!(entry.source, "client-poll");
    assert_eq!(entry.ams_net_id, "10.0.0.1.1.1");
    assert_eq!(entry.ams_source_port, 851);
    assert_eq!(
        entry.attributes.get(&"plc.symbol".to_string()),
        Some(&JsonScalar::Text("MAIN.fTemp".to_string()))
    );
}

#[test]
fn poller_new_rejects_histogram_kind() {
    let mut def = def_lreal("X", "x");
    def.kind = MetricKindConfig::Histogram;
    let meta = SymbolMeta {
        size: 8,
        data_type_name: "LREAL".into(),
        index_group: 0x4040,
        index_offset: 0,
    };
    match Poller::new(def, meta, Arc::new(NopReader)) {
        Ok(_) => panic!("expected histogram kind to be rejected"),
        Err(e) => assert!(e.to_string().contains("histogram")),
    }
}

struct CounterReader {
    counter: Cell<u32>,
    fail_first_n: u32,
}

impl CounterReader {
    fn failing(n: u32) -> Arc<Self> {
        Arc::new(Self { counter: Cell::new(0), fail_first_n: n })
    }
}

impl SymbolReader for CounterReader {
    fn read_raw(&self, _meta: &SymbolMeta) -> Result<Vec<u8>, ClientError> {
        let n = self.counter.get();
        self.counter.set(n + 1);
        if n < self.fail_first_n {
            return Err(ClientError::Ads(format!("simulated ADS fault #{n}")));
        }
        Ok((n as f64).to_le_bytes().to_vec())
    }
}

fn def(interval_ms: u64, kind: MetricKindConfig) -> CustomMetricDef {
    CustomMetricDef {
        symbol: "MAIN.fValue".into(),
        metric_name: "plc.value".into(),
        description: "test".into(),
        unit: "1".into(),
        kind,
        is_monotonic: false,
        source: CustomMetricSource::Poll,
        ams_net_id: Some("10.0.0.1.1.1".into()),
        ams_port: Some(851),
        poll: Some(PollConfig { interval_ms }),
        notification: None,
    }
}

fn meta_lreal() -> SymbolMeta {
    SymbolMeta { size: 8, data_type_name: "LREAL".into(), index_group: 0x4040, index_offset: 0 }
}

fn emitted(step: PollStep) -> MetricEntry {
    match step {
        PollStep::Emit(entry) => entry,
        other => panic!("expected a metric, got {:?}", other),
    }
}

fn waited(step: PollStep) -> u64 {
    match step {
        PollStep::Wait(ms) => ms,
        other => panic!("expected a wait, got {:?}", other),
    }
}

#[test]
fn poller_emits_at_configured_interval() {
    let mut poller = Poller::new(def(50, MetricKindConfig::Gauge), meta_lreal(), CounterReader::failing(0)).unwrap();
    assert_eq!(poller.interval_ms(), 50);
    for n in 0..3u32 {
        let entry = emitted(poller.poll_at(NOW));
        assert_eq!(entry.name, "plc.value");
        assert_eq!(entry.source, "client-poll");
        assert_eq!(entry.value, MetricValue::Lreal(Lreal((n as f64).to_bits())));
        assert_eq!(entry.timestamp, NOW);
    }
}

#[test]
fn poller_recovers_after_read_failures() {
    let reader = CounterReader::failing(9);
    let mut poller = Poller::new(def(50, MetricKindConfig::Gauge), meta_lreal(), reader).unwrap();
    let waits: Vec<u64> = (0..9).map(|_| waited(poller.poll_at(NOW))).collect();
    assert_eq!(waits, vec![250, 500, 1000, 2000, 4000, 8000, 16000, 30000, 30000]);
    assert_eq!(emitted(poller.poll_at(NOW)).name, "plc.value");
    assert_eq!(waited(poller.on_read(Err(ClientError::Io("gone".to_string())), NOW)), 250);
}

#[test]
fn poller_emits_sum_kind_when_configured() {
    let mut d = def(50, MetricKindConfig::Sum);
    d.is_monotonic = true;
    let mut poller = Poller::new(d, meta_lreal(), CounterReader::failing(0)).unwrap();
    let entry = emitted(poller.poll_at(NOW));
    assert_eq!(entry.kind, MetricKind::Sum);
    assert!(entry.is_monotonic);
}

#[test]
fn intervals_have_a_floor_and_a_default() {
    let mut d = def(3, MetricKindConfig::Gauge);
    let poller = Poller::new(d.clone(), meta_lreal(), Arc::new(NopReader)).unwrap();
    assert_eq!(poller.interval_ms(), 10);
    d.poll = None;
    let poller = Poller::new(d, meta_lreal(), Arc::new(NopReader)).unwrap();
    assert_eq!(poller.interval_ms(), 1000);
}

#[test]
fn entries_without_an_address() {
    let mut d = def(50, MetricKindConfig::Histogram);
    d.ams_net_id = None;
    d.ams_port = None;
    let entry = build_metric_entry_at(&d, PlcValue::Bool(true), NOW);
    assert_eq!(entry.kind, MetricKind::Gauge);
    assert_eq!(entry.value, MetricValue::Unsigned(1));
    assert_eq!(entry.ams_net_id, "");
    assert_eq!(entry.ams_source_port, 0);
    assert_eq!(
        entry.attributes.get(&"plc.datatype".to_string()),
        Some(&JsonScalar::Text("bool".to_string()))
    );
}
