//! Metrics on the health of the connection to the MQTT broker.
use vstd::prelude::*;

use crate::connection_manager::next_count;
use crate::health_metrics::{own_counter, own_gauge, own_metric};
use crate::models::{metric_views, MetricEntry, MetricEntryView, MetricKind, MetricValue};
use crate::time::Timestamp;

verus! {

/// What is known of the connection to the broker.
pub struct MqttHealthCollector {
    connected: bool,
    reconnect_count: u64,
    publish_error_count: u64,
    incoming_frame_count: u64,
    subscribe_latency_ms: Option<u64>,
    service_name: String,
}

pub struct MqttHealthView {
    pub connected: bool,
    pub reconnects: u64,
    pub publish_errors: u64,
    pub incoming_frames: u64,
    pub subscribe_latency_ms: Option<u64>,
    pub service: Seq<char>,
}

impl View for MqttHealthCollector {
    type V = MqttHealthView;

    closed spec fn view(&self) -> MqttHealthView {
        MqttHealthView {
            connected: self.connected,
            reconnects: self.reconnect_count,
            publish_errors: self.publish_error_count,
            incoming_frames: self.incoming_frame_count,
            subscribe_latency_ms: self.subscribe_latency_ms,
            service: self.service_name@,
        }
    }
}

/// The upper bounds of the latency buckets, in milliseconds.
pub open spec fn latency_bounds() -> Seq<u64> {
    seq![1u64, 5, 10, 50, 100, 500, 1000]
}

/// The bucket of a latency: the first whose bound is greater.
pub open spec fn latency_bucket(ms: u64) -> int {
    if ms < 1 {
        0
    } else if ms < 5 {
        1
    } else if ms < 10 {
        2
    } else if ms < 50 {
        3
    } else if ms < 100 {
        4
    } else if ms < 500 {
        5
    } else if ms < 1000 {
        6
    } else {
        7
    }
}

/// Milliseconds as seconds.
pub open spec fn seconds(ms: u64) -> MetricValue {
    MetricValue::Ratio(ms, 1000)
}

/// The histogram of one latency.
pub open spec fn latency_metric(ms: u64, service: Seq<char>, now: Timestamp) -> MetricEntryView {
    MetricEntryView {
        histogram_bounds: latency_bounds().map_values(|b: u64| seconds(b)),
        histogram_counts: Seq::new(8, |i: int| if i == latency_bucket(ms) { 1u64 } else { 0u64 }),
        histogram_count: 1,
        histogram_sum: seconds(ms),
        ..own_metric(
            "ads_mqtt_subscribe_latency_seconds"@,
            "Time elapsed until first successful MQTT subscribe"@,
            "s"@,
            MetricKind::Histogram,
            seconds(ms),
            service,
            now,
        )
    }
}

/// The four metrics that are always there.
pub open spec fn broker_metrics(h: MqttHealthView, now: Timestamp) -> Seq<MetricEntryView> {
    seq![
        own_metric(
            "ads_mqtt_broker_connected"@,
            "Whether the MQTT broker connection is active (0 or 1)"@,
            "1"@,
            MetricKind::Gauge,
            MetricValue::Unsigned(if h.connected { 1 } else { 0 }),
            h.service,
            now,
        ),
        own_metric(
            "ads_mqtt_reconnect_total"@,
            "Total MQTT reconnection attempts since startup"@,
            "{attempts}"@,
            MetricKind::Sum,
            MetricValue::Unsigned(h.reconnects),
            h.service,
            now,
        ),
        own_metric(
            "ads_mqtt_publish_errors_total"@,
            "Total MQTT publish errors since startup"@,
            "{errors}"@,
            MetricKind::Sum,
            MetricValue::Unsigned(h.publish_errors),
            h.service,
            now,
        ),
        own_metric(
            "ads_mqtt_incoming_frames_total"@,
            "Total MQTT incoming frames received since startup"@,
            "{frames}"@,
            MetricKind::Sum,
            MetricValue::Unsigned(h.incoming_frames),
            h.service,
            now,
        ),
    ]
}

/// All metrics: the latency of the subscription is among them once it is known.
pub open spec fn all_metrics(h: MqttHealthView, now: Timestamp) -> Seq<MetricEntryView> {
    match h.subscribe_latency_ms {
        Some(ms) => broker_metrics(h, now).push(latency_metric(ms, h.service, now)),
        None => broker_metrics(h, now),
    }
}

/// A latency lies below the bound of its bucket and not below that of the bucket before.
pub proof fn law_latency_lies_in_its_bucket(ms: u64)
    ensures
        0 <= latency_bucket(ms) <= latency_bounds().len(),
        latency_bucket(ms) < latency_bounds().len() ==> ms < latency_bounds()[latency_bucket(ms)],
        latency_bucket(ms) > 0 ==> latency_bounds()[latency_bucket(ms) - 1] <= ms,
{
}

impl MqttHealthCollector {
    pub fn new(service_name: String) -> (r: Self)
        ensures
            r@ == (MqttHealthView {
                connected: false,
                reconnects: 0,
                publish_errors: 0,
                incoming_frames: 0,
                subscribe_latency_ms: None,
                service: service_name@,
            }),
    {
        MqttHealthCollector {
            connected: false,
            reconnect_count: 0,
            publish_error_count: 0,
            incoming_frame_count: 0,
            subscribe_latency_ms: None,
            service_name,
        }
    }

    pub fn record_connected(&mut self)
        ensures
            final(self)@ == (MqttHealthView { connected: true, ..old(self)@ }),
    {
        self.connected = true;
    }

    pub fn record_disconnected(&mut self)
        ensures
            final(self)@ == (MqttHealthView { connected: false, ..old(self)@ }),
    {
        self.connected = false;
    }

    pub fn record_reconnect(&mut self)
        ensures
            final(self)@ == (MqttHealthView { reconnects: next_count(old(self)@.reconnects), ..old(self)@ }),
    {
        self.reconnect_count = self.reconnect_count.wrapping_add(1);
    }

    pub fn record_publish_error(&mut self)
        ensures
            final(self)@ == (MqttHealthView { publish_errors: next_count(old(self)@.publish_errors), ..old(self)@ }),
    {
        self.publish_error_count = self.publish_error_count.wrapping_add(1);
    }

    pub fn record_incoming_frame(&mut self)
        ensures
            final(self)@ == (MqttHealthView { incoming_frames: next_count(old(self)@.incoming_frames), ..old(self)@ }),
    {
        self.incoming_frame_count = self.incoming_frame_count.wrapping_add(1);
    }

    /// Only the first latency is kept.
    pub fn record_subscribe_latency_ms(&mut self, latency_ms: u64)
        ensures
            final(self)@ == (MqttHealthView {
                subscribe_latency_ms: if old(self)@.subscribe_latency_ms is None {
                    Some(latency_ms)
                } else {
                    old(self)@.subscribe_latency_ms
                },
                ..old(self)@
            }),
    {
        if self.subscribe_latency_ms.is_none() {
            self.subscribe_latency_ms = Some(latency_ms);
        }
    }

    fn latency_histogram(ms: u64, service: &str, now: Timestamp) -> (r: MetricEntry)
        ensures
            r@ == latency_metric(ms, service@, now),
    {
        let limits: [u64; 7] = [1, 5, 10, 50, 100, 500, 1000];
        assert(limits@ =~= latency_bounds());
        let mut bounds: Vec<MetricValue> = Vec::new();
        let mut counts: Vec<u64> = Vec::new();
        let mut i: usize = 0;
        while i < 7
            invariant
                i <= 7,
                limits@ == latency_bounds(),
                bounds@ =~= latency_bounds().take(i as int).map_values(|b: u64| seconds(b)),
                counts@ =~= Seq::new(i as nat, |i: int| if i == latency_bucket(ms) { 1u64 } else { 0u64 }),
            decreases 7 - i,
        {
            bounds.push(MetricValue::Ratio(limits[i], 1000));
            let here = ms < limits[i] && (i == 0 || ms >= limits[i - 1]);
            counts.push(
                if here {
                    1
                } else {
                    0
                },
            );
            i = i + 1;
        }
        counts.push(
            if ms >= 1000 {
                1
            } else {
                0
            },
        );
        assert(latency_bounds().take(7) =~= latency_bounds());
        assert(counts@ =~= Seq::new(8, |i: int| if i == latency_bucket(ms) { 1u64 } else { 0u64 }));
        let mut entry = MetricEntry::histogram(
            String::from_str("ads_mqtt_subscribe_latency_seconds"),
            bounds,
            counts,
            1,
            MetricValue::Ratio(ms, 1000),
            now,
        );
        entry.description = String::from_str("Time elapsed until first successful MQTT subscribe");
        entry.unit = String::from_str("s");
        entry.project_name = service.to_string();
        entry.source = String::from_str("tc-otel");
        entry
    }

    pub fn collect(&self, now: Timestamp) -> (r: Vec<MetricEntry>)
        ensures
            metric_views(r@) == all_metrics(self@, now),
    {
        let s: &str = &self.service_name;
        let connected: u64 = if self.connected {
            1
        } else {
            0
        };
        let mut r: Vec<MetricEntry> = Vec::new();
        r.push(
            own_gauge(
                "ads_mqtt_broker_connected",
                "Whether the MQTT broker connection is active (0 or 1)",
                "1",
                MetricValue::Unsigned(connected),
                s,
                now,
            ),
        );
        r.push(
            own_counter(
                "ads_mqtt_reconnect_total",
                "Total MQTT reconnection attempts since startup",
                "{attempts}",
                MetricValue::Unsigned(self.reconnect_count),
                s,
                now,
            ),
        );
        r.push(
            own_counter(
                "ads_mqtt_publish_errors_total",
                "Total MQTT publish errors since startup",
                "{errors}",
                MetricValue::Unsigned(self.publish_error_count),
                s,
                now,
            ),
        );
        r.push(
            own_counter(
                "ads_mqtt_incoming_frames_total",
                "Total MQTT incoming frames received since startup",
                "{frames}",
                MetricValue::Unsigned(self.incoming_frame_count),
                s,
                now,
            ),
        );
        assert(metric_views(r@) =~= broker_metrics(self@, now));
        match self.subscribe_latency_ms {
            Some(ms) => {
                let ghost before = r@;
                r.push(Self::latency_histogram(ms, s, now));
                assert(metric_views(r@) =~= metric_views(before).push(latency_metric(ms, s@, now)));
            },
            None => {},
        }
        r
    }
}

} // verus!
