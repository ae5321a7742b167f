use std::cell::{Cell, RefCell};
use std::collections::HashMap;
use std::sync::Arc;
use tc_otel::ams::{AmsHeader, AmsNetId, ADS_CMD_ADD_NOTIFICATION, ADS_CMD_NOTIFICATION, ADS_CMD_READ};
use tc_otel::client::error::ClientError;
use tc_otel::client::notify::{DispatchBatch, NotifAttrs, NotifHandle, NotificationBackend, Notifier};
use tc_otel::client::notify_wire::{
    decode_subscribe_reply, decode_unsubscribe_reply, encode_subscribe, parse_notification_payload,
    DispatcherNotificationBackend, NotificationSink,
};
use tc_otel::client::SymbolMeta;
use tc_otel::config::{
    CustomMetricDef, CustomMetricSource, MetricKindConfig, NotificationConfig, NotificationTransmissionMode,
};
use tc_otel::dispatcher::{AmsDispatcher, Awaited, ResponseFrame, TransportKind};
use tc_otel::models::{Lreal, MetricValue};
use tc_otel::time::{Duration, Timestamp};

const NOW: Timestamp = Timestamp { secs: 1_700_000_000, nanos: 0 };

struct FakeBackend {
    next_handle: Cell<u32>,
    active: RefCell<HashMap<NotifHandle, NotifAttrs>>,
    queue: RefCell<Vec<DispatchBatch>>,
    closed: Cell<bool>,
    refuse: Cell<bool>,
    refuse_end: Cell<bool>,
    asked: RefCell<Vec<u32>>,
    ended: RefCell<Vec<NotifHandle>>,
}

impl FakeBackend {
    fn new() -> Arc<Self> {
        Arc::new(Self {
            next_handle: Cell::new(1000),
            active: RefCell::new(HashMap::new()),
            queue: RefCell::new(Vec::new()),
            closed: Cell::new(false),
            refuse: Cell::new(false),
            refuse_end: Cell::new(false),
            asked: RefCell::new(Vec::new()),
            ended: RefCell::new(Vec::new()),
        })
    }

    fn push_batch(&self, batch: DispatchBatch) {
        self.queue.borrow_mut().push(batch);
    }

    fn close(&self) {
        self.closed.set(true);
    }

    fn active_count(&self) -> usize {
        self.active.borrow().len()
    }
}

impl NotificationBackend for FakeBackend {
    fn subscribe(&self, attrs: &NotifAttrs, meta: &SymbolMeta) -> Result<NotifHandle, ClientError> {
        self.asked.borrow_mut().push(meta.index_offset);
        if self.refuse.get() {
            return Err(ClientError::Ads("refused".to_string()));
        }
        let h = self.next_handle.get();
        self.next_handle.set(h + 1);
        self.active.borrow_mut().insert(h, *attrs);
        Ok(h)
    }

    fn unsubscribe(&self, handle: NotifHandle) -> Result<(), ClientError> {
        self.ended.borrow_mut().push(handle);
        if self.refuse_end.get() {
            return Err(ClientError::Ads(format!("cannot end {handle}")));
        }
        self.active.borrow_mut().remove(&handle);
        Ok(())
    }

    fn recv_timeout(&self, _timeout: Duration) -> Result<Option<DispatchBatch>, ClientError> {
        if self.closed.get() {
            return Ok(None);
        }
        let batch = self.queue.borrow_mut().pop();
        Ok(batch.or(Some(DispatchBatch { samples: vec![] })))
    }
}

fn def_for(symbol: &str, name: &str, min_period_ms: u32) -> CustomMetricDef {
    CustomMetricDef {
        symbol: symbol.to_string(),
        metric_name: name.to_string(),
        description: String::new(),
        unit: String::new(),
        kind: MetricKindConfig::Gauge,
        is_monotonic: false,
        source: CustomMetricSource::Notification,
        ams_net_id: Some("10.0.0.1.1.1".into()),
        ams_port: Some(851),
        poll: None,
        notification: Some(NotificationConfig {
            min_period_ms,
            max_period_ms: 10_000,
            max_delay_ms: 500,
            transmission_mode: NotificationTransmissionMode::OnChange,
        }),
    }
}

fn meta_lreal() -> SymbolMeta {
    SymbolMeta {
        size: 8,
        data_type_name: "LREAL".into(),
        index_group: 0x4040,
        index_offset: 0,
    }
}

#[test]
fn subscribe_and_unsubscribe_roundtrip() {
    let backend = FakeBackend::new();
    let mut notifier = Notifier::new(backend.clone());

    let h = notifier
        .subscribe(def_for("MAIN.f", "m", 50), meta_lreal())
        .unwrap();
    assert_eq!(backend.active_count(), 1);

    notifier.unsubscribe(h).unwrap();
    assert_eq!(backend.active_count(), 0);
}

#[test]
fn reconcile_added_removed_changed() {
    let backend = FakeBackend::new();
    let mut notifier = Notifier::new(backend.clone());

    // Start empty → add A and B.
    let r1 = notifier
        .reconcile(vec![
            (def_for("GVL.A", "m.a", 50), meta_lreal()),
            (def_for("GVL.B", "m.b", 50), meta_lreal()),
        ])
        .unwrap();
    assert_eq!(r1.added.len(), 2);
    assert!(r1.removed.is_empty());
    assert!(r1.changed.is_empty());
    assert_eq!(backend.active_count(), 2);

    // Now reconcile to (B unchanged, C new, A dropped).
    let r2 = notifier
        .reconcile(vec![
            (def_for("GVL.B", "m.b", 50), meta_lreal()),
            (def_for("GVL.C", "m.c", 50), meta_lreal()),
        ])
        .unwrap();
    assert_eq!(r2.added, vec!["GVL.C".to_string()]);
    assert_eq!(r2.removed, vec!["GVL.A".to_string()]);
    assert!(r2.changed.is_empty());

    // Reconcile with B's min_period_ms changed → should show as changed.
    let r3 = notifier
        .reconcile(vec![
            (def_for("GVL.B", "m.b", 250), meta_lreal()),
            (def_for("GVL.C", "m.c", 50), meta_lreal()),
        ])
        .unwrap();
    assert_eq!(r3.changed, vec!["GVL.B".to_string()]);
    assert!(r3.added.is_empty());
    assert!(r3.removed.is_empty());

    // Same reconcile again is a no-op.
    let r4 = notifier
        .reconcile(vec![
            (def_for("GVL.B", "m.b", 250), meta_lreal()),
            (def_for("GVL.C", "m.c", 50), meta_lreal()),
        ])
        .unwrap();
    assert!(r4.added.is_empty() && r4.removed.is_empty() && r4.changed.is_empty());
}

#[test]
fn dispatch_routes_sample_to_metric_channel() {
    let backend = FakeBackend::new();
    let mut notifier = Notifier::new(backend.clone());

    let h = notifier
        .subscribe(def_for("MAIN.fTemp", "plc.temp", 50), meta_lreal())
        .unwrap();
    let payload = 42.5_f64.to_le_bytes().to_vec();
    let entry = notifier.dispatch_sample(h, &payload, NOW).unwrap();
    assert_eq!(entry.name, "plc.temp");
    assert_eq!(entry.value, MetricValue::Lreal(Lreal(42.5_f64.to_bits())));
    assert_eq!(entry.source, "client-notify");
}

#[test]
fn dispatch_drops_unknown_handles_silently() {
    let backend = FakeBackend::new();
    let notifier = Notifier::new(backend.clone());
    assert!(notifier.dispatch_sample(9999, &[0u8; 8], NOW).is_none());
}

#[test]
fn dispatcher_exits_when_backend_closes() {
    let backend = FakeBackend::new();
    let notifier = Notifier::new(backend.clone());
    assert!(notifier.receive(NOW).unwrap().is_empty());
    backend.close();
    assert!(notifier.receive(NOW).is_none());
}

#[test]
fn dispatcher_delivers_queued_batch_end_to_end() {
    let backend = FakeBackend::new();
    let mut notifier = Notifier::new(backend.clone());
    let h = notifier.subscribe(def_for("GVL.speed", "plc.speed", 50), meta_lreal()).unwrap();
    backend.push_batch(DispatchBatch {
        samples: vec![
            (h, 123.0_f64.to_le_bytes().to_vec()),
            (h + 1, 1.0_f64.to_le_bytes().to_vec()),
            (h, vec![1, 2]),
        ],
    });
    let entries = notifier.receive(NOW).unwrap();
    assert_eq!(entries.len(), 1);
    assert_eq!(entries[0].name, "plc.speed");
    assert_eq!(entries[0].value, MetricValue::Lreal(Lreal(123.0_f64.to_bits())));
    assert!(notifier.on_received(Err(ClientError::Io("x".to_string())), NOW).unwrap().is_empty());
}

#[test]
fn definitions_without_settings_change_nothing() {
    let backend = FakeBackend::new();
    let mut notifier = Notifier::new(backend.clone());
    notifier.reconcile(vec![(def_for("GVL.A", "m.a", 50), meta_lreal())]).unwrap();
    let mut bad = def_for("GVL.B", "m.b", 50);
    bad.notification = None;
    let err = notifier.reconcile(vec![(bad, meta_lreal())]).unwrap_err();
    assert_eq!(
        err.to_string(),
        "decode error: metric 'm.b' has source=notification but no notification config"
    );
    assert_eq!(backend.active_count(), 1);
}

#[test]
fn refusals_end_a_reconciliation() {
    let backend = FakeBackend::new();
    let mut notifier = Notifier::new(backend.clone());
    backend.refuse.set(true);
    assert_eq!(
        notifier.reconcile(vec![(def_for("GVL.A", "m.a", 50), meta_lreal())]).unwrap_err(),
        ClientError::Ads("refused".to_string())
    );
    backend.refuse.set(false);
    let report = notifier.reconcile(vec![(def_for("GVL.A", "m.a", 50), meta_lreal())]).unwrap();
    assert_eq!(report.added, vec!["GVL.A".to_string()]);
}

#[test]
fn attributes_on_the_wire() {
    let mut def = def_for("GVL.A", "m.a", 3);
    let attrs = NotifAttrs::from_def(&def, 8).unwrap();
    assert_eq!(attrs.cycle_time, Duration::from_millis(10));
    assert_eq!(attrs.max_delay, Duration::from_millis(500));
    let mut expected: Vec<u8> = Vec::new();
    expected.extend_from_slice(&4u32.to_le_bytes());
    expected.extend_from_slice(&5_000_000u32.to_le_bytes());
    expected.extend_from_slice(&100_000u32.to_le_bytes());
    expected.extend_from_slice(&[0; 16]);
    assert_eq!(attrs.serialize_tail(), expected);
    def.notification = Some(NotificationConfig {
        min_period_ms: 1000,
        max_period_ms: 1000,
        max_delay_ms: 430_000,
        transmission_mode: NotificationTransmissionMode::Cyclic,
    });
    let tail = NotifAttrs::from_def(&def, 8).unwrap().serialize_tail();
    assert_eq!(tail[..4], [3, 0, 0, 0]);
    assert_eq!(tail[4..8], (4_300_000_000u64 as u32).to_le_bytes());
    let request = encode_subscribe(&attrs, &meta_lreal());
    assert_eq!(request.len(), 40);
    assert_eq!(request[..12], [0x40, 0x40, 0, 0, 0, 0, 0, 0, 8, 0, 0, 0]);
    assert_eq!(request[12..], expected[..]);
}

#[test]
fn replies_of_the_plc() {
    assert_eq!(decode_subscribe_reply(&[0, 0, 0, 0, 7, 1, 0, 0]).unwrap(), 263);
    assert_eq!(
        decode_subscribe_reply(&[0; 7]).unwrap_err().to_string(),
        "decode error: ADS AddNotification response too short: 7 bytes"
    );
    assert_eq!(
        decode_subscribe_reply(&[0x10, 7, 0, 0, 0, 0, 0, 0]).unwrap_err().to_string(),
        "ads protocol error: ADS AddNotification returned error 0x710"
    );
    assert!(decode_unsubscribe_reply(&[0; 4]).is_ok());
    assert_eq!(
        decode_unsubscribe_reply(&[0; 3]).unwrap_err().to_string(),
        "decode error: ADS DelNotification response too short: 3 bytes"
    );
    assert_eq!(
        decode_unsubscribe_reply(&[1, 0, 0, 0]).unwrap_err().to_string(),
        "ads protocol error: ADS DelNotification returned error 0x1"
    );
}

fn notification(stamps: &[&[(u32, &[u8])]]) -> Vec<u8> {
    let mut out: Vec<u8> = vec![0; 4];
    out.extend_from_slice(&(stamps.len() as u32).to_le_bytes());
    for samples in stamps {
        out.extend_from_slice(&[9; 8]);
        out.extend_from_slice(&(samples.len() as u32).to_le_bytes());
        for (handle, data) in *samples {
            out.extend_from_slice(&handle.to_le_bytes());
            out.extend_from_slice(&(data.len() as u32).to_le_bytes());
            out.extend_from_slice(data);
        }
    }
    out
}

#[test]
fn notifications_read_back() {
    let payload = notification(&[&[(1, &[1, 2]), (2, &[])], &[], &[(3, &[4])]]);
    let samples = parse_notification_payload(&payload);
    assert_eq!(samples, vec![(1, vec![1, 2]), (2, vec![]), (3, vec![4])]);
    assert!(parse_notification_payload(&payload[..7]).is_empty());
    let cut = parse_notification_payload(&payload[..payload.len() - 1]);
    assert_eq!(cut, vec![(1, vec![1, 2]), (2, vec![])]);
}

#[test]
fn only_notifications_are_picked() {
    let mut header = AmsHeader {
        target_net_id: AmsNetId([10, 10, 10, 10, 1, 1]),
        target_port: 16150,
        source_net_id: AmsNetId([1, 2, 3, 4, 5, 6]),
        source_port: 851,
        command_id: ADS_CMD_NOTIFICATION,
        state_flags: 4,
        data_length: 0,
        error_code: 0,
        invoke_id: 0,
    };
    let payload = notification(&[&[(1, &[1])]]);
    assert_eq!(NotificationSink.extract(&header, &payload).unwrap().samples, vec![(1, vec![1])]);
    assert!(NotificationSink.extract(&header, &notification(&[])).is_none());
    header.command_id = ADS_CMD_READ;
    assert!(NotificationSink.extract(&header, &payload).is_none());
}

#[test]
fn subscriptions_go_through_a_dispatcher() {
    let plc = AmsNetId([5, 80, 201, 232, 1, 1]);
    let mut dispatcher = AmsDispatcher::new(AmsNetId([10, 10, 10, 10, 1, 1]), 16150);
    dispatcher.attach_mqtt("AdsOverMqtt").unwrap();
    dispatcher.add_static_route(plc, TransportKind::Mqtt);
    let backend = DispatcherNotificationBackend::new(plc, 851, Duration::from_secs(1));
    let attrs = NotifAttrs::from_def(&def_for("GVL.A", "m.a", 50), 8).unwrap();
    let sent = backend.begin_subscribe(&mut dispatcher, &attrs, &meta_lreal()).unwrap();
    let header = AmsHeader::parse(&sent.frame[6..]).unwrap();
    assert_eq!(header.command_id, ADS_CMD_ADD_NOTIFICATION);
    assert_eq!(sent.frame.len(), 38 + 40);
    let reply = ResponseFrame { header: header.make_response(0), payload: vec![0, 0, 0, 0, 5, 0, 0, 0] };
    let handle = backend.finish_subscribe(&mut dispatcher, sent.invoke_id, Awaited::Response(reply)).unwrap();
    assert_eq!(handle, 5);
    let sent = backend.begin_unsubscribe(&mut dispatcher, handle).unwrap();
    assert_eq!(sent.frame[38..], [5, 0, 0, 0]);
    let header = AmsHeader::parse(&sent.frame[6..]).unwrap();
    let reply = ResponseFrame { header: header.make_response(0), payload: vec![0; 4] };
    assert!(backend.finish_unsubscribe(&mut dispatcher, sent.invoke_id, Awaited::Response(reply)).is_ok());
    let gone = backend.finish_unsubscribe(&mut dispatcher, 1, Awaited::Closed).unwrap_err();
    assert!(gone.to_string().starts_with("ads protocol error: response channel closed"));
}

fn meta_at(offset: u32) -> SymbolMeta {
    SymbolMeta { index_offset: offset, ..meta_lreal() }
}

#[test]
fn the_backend_is_asked_once_for_each_change() {
    let backend = FakeBackend::new();
    let mut notifier = Notifier::new(backend.clone());
    let a = notifier.subscribe(def_for("GVL.A", "m.a", 50), meta_at(1)).unwrap();
    let b = notifier.subscribe(def_for("GVL.B", "m.b", 50), meta_at(2)).unwrap();
    let wants = || {
        vec![
            (def_for("GVL.B", "m.b", 75), meta_at(2)),
            (def_for("GVL.C", "m.c", 50), meta_at(3)),
        ]
    };
    backend.asked.borrow_mut().clear();
    notifier.reconcile(wants()).unwrap();
    let mut ended = backend.ended.borrow().clone();
    ended.sort();
    assert_eq!(ended, vec![a, b]);
    let mut asked = backend.asked.borrow().clone();
    asked.sort();
    assert_eq!(asked, vec![2, 3]);

    backend.asked.borrow_mut().clear();
    backend.ended.borrow_mut().clear();
    let again = notifier.reconcile(wants()).unwrap();
    assert!(again.added.is_empty() && again.removed.is_empty() && again.changed.is_empty());
    assert!(backend.asked.borrow().is_empty());
    assert!(backend.ended.borrow().is_empty());
}

#[test]
fn replies_of_the_backend_are_handed_on() {
    let backend = FakeBackend::new();
    let mut notifier = Notifier::new(backend.clone());
    assert_eq!(notifier.subscribe(def_for("GVL.A", "m.a", 50), meta_at(7)).unwrap(), 1000);
    assert_eq!(*backend.asked.borrow(), vec![7]);
    backend.refuse.set(true);
    assert!(notifier.subscribe(def_for("GVL.B", "m.b", 50), meta_at(8)).is_err());
    assert_eq!(*backend.asked.borrow(), vec![7, 8]);
    notifier.unsubscribe(55).unwrap();
    assert_eq!(*backend.ended.borrow(), vec![55]);
}

#[test]
fn reconciling_gives_the_first_refusal() {
    let backend = FakeBackend::new();
    let mut notifier = Notifier::new(backend.clone());
    let a = notifier.subscribe(def_for("GVL.A", "m.a", 50), meta_at(1)).unwrap();
    let b = notifier.subscribe(def_for("GVL.B", "m.b", 50), meta_at(2)).unwrap();
    backend.asked.borrow_mut().clear();

    // A cannot be ended: nothing new is asked for, and B keeps its handle.
    backend.refuse_end.set(true);
    let wants = || {
        vec![
            (def_for("GVL.B", "m.b", 50), meta_at(2)),
            (def_for("GVL.C", "m.c", 50), meta_at(3)),
        ]
    };
    let e = notifier.reconcile(wants()).unwrap_err();
    assert_eq!(e.to_string(), ClientError::Ads(format!("cannot end {a}")).to_string());
    assert_eq!(*backend.ended.borrow(), vec![a]);
    assert!(backend.asked.borrow().is_empty());

    // A is forgotten all the same; C is refused, and B still keeps its handle.
    backend.refuse_end.set(false);
    backend.refuse.set(true);
    let e = notifier.reconcile(wants()).unwrap_err();
    assert_eq!(e.to_string(), ClientError::Ads("refused".to_string()).to_string());
    assert_eq!(*backend.ended.borrow(), vec![a]);
    assert_eq!(*backend.asked.borrow(), vec![3]);
    assert!(notifier.dispatch_sample(b, &1.5f64.to_le_bytes(), NOW).is_some());
    assert!(notifier.dispatch_sample(a, &1.5f64.to_le_bytes(), NOW).is_none());

    // With nothing refused, only what is missing is added.
    backend.refuse.set(false);
    let r = notifier.reconcile(wants()).unwrap();
    assert_eq!(r.added, vec!["GVL.C".to_string()]);
    assert!(r.removed.is_empty() && r.changed.is_empty());
}
