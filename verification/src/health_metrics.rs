//! Metrics on the health of the ADS connections.
use vstd::prelude::*;

use crate::connection_manager::{state_of, within_limits, ConnectionManager, ManagerView};
use crate::keymap::{lemma_map_of_len, map_of};
use crate::models::{metric_views, MetricEntry, MetricEntryView, MetricKind, MetricValue};
use crate::time::Timestamp;

verus! {

/// A metric of the service itself.
pub open spec fn own_metric(
    name: Seq<char>,
    description: Seq<char>,
    unit: Seq<char>,
    kind: MetricKind,
    value: MetricValue,
    service: Seq<char>,
    now: Timestamp,
) -> MetricEntryView {
    MetricEntryView {
        description,
        unit,
        project_name: service,
        source: "tc-otel"@,
        ..MetricEntryView::plain(name, kind, value, kind == MetricKind::Sum, now)
    }
}

/// A gauge of the service itself.
pub fn own_gauge(
    name: &str,
    description: &str,
    unit: &str,
    value: MetricValue,
    service: &str,
    now: Timestamp,
) -> (r: MetricEntry)
    ensures
        r@ == own_metric(name@, description@, unit@, MetricKind::Gauge, value, service@, now),
{
    let mut entry = MetricEntry::gauge(name.to_string(), value, now);
    entry.description = description.to_string();
    entry.unit = unit.to_string();
    entry.project_name = service.to_string();
    entry.source = String::from_str("tc-otel");
    entry
}

/// A monotonic sum of the service itself.
pub fn own_counter(
    name: &str,
    description: &str,
    unit: &str,
    value: MetricValue,
    service: &str,
    now: Timestamp,
) -> (r: MetricEntry)
    ensures
        r@ == own_metric(name@, description@, unit@, MetricKind::Sum, value, service@, now),
{
    let mut entry = MetricEntry::sum(name.to_string(), value, true, now);
    entry.description = description.to_string();
    entry.unit = unit.to_string();
    entry.project_name = service.to_string();
    entry.source = String::from_str("tc-otel");
    entry
}

/// The number of addresses with connections.
pub open spec fn busy_addresses(m: ManagerView) -> nat {
    Set::new(|ip: Seq<char>| state_of(m, ip).active > 0).len()
}

/// The share of the connection limit that is in use.
pub open spec fn utilization(m: ManagerView) -> MetricValue {
    if m.config.max_connections > 0 {
        MetricValue::Ratio(m.active as u64, m.config.max_connections as u64)
    } else {
        MetricValue::Unsigned(0)
    }
}

/// A manager within its limits uses no more than the whole of its limit.
pub proof fn law_utilization_is_a_share(m: ManagerView)
    requires
        within_limits(m),
    ensures
        utilization(m) matches MetricValue::Ratio(used, limit) ==> used <= limit && limit > 0,
        utilization(m) is Ratio || utilization(m) == MetricValue::Unsigned(0),
{
}

/// The seven metrics.
pub open spec fn connection_metrics(m: ManagerView, service: Seq<char>, now: Timestamp) -> Seq<MetricEntryView> {
    seq![
        own_metric(
            "ads.connections.active"@,
            "Number of currently active ADS connections"@,
            "{connections}"@,
            MetricKind::Gauge,
            MetricValue::Unsigned(m.active as u64),
            service,
            now,
        ),
        own_metric(
            "ads.connections.accepted"@,
            "Total ADS connections accepted since startup"@,
            "{connections}"@,
            MetricKind::Sum,
            MetricValue::Unsigned(m.accepted),
            service,
            now,
        ),
        own_metric(
            "ads.connections.rejected"@,
            "Total ADS connections rejected since startup"@,
            "{connections}"@,
            MetricKind::Sum,
            MetricValue::Unsigned(m.rejected),
            service,
            now,
        ),
        own_metric(
            "ads.connections.limit"@,
            "Configured maximum concurrent ADS connections"@,
            "{connections}"@,
            MetricKind::Gauge,
            MetricValue::Unsigned(m.config.max_connections as u64),
            service,
            now,
        ),
        own_metric(
            "ads.connections.utilization"@,
            "Ratio of active connections to configured limit"@,
            "1"@,
            MetricKind::Gauge,
            utilization(m),
            service,
            now,
        ),
        own_metric(
            "ads.connected_ips"@,
            "Number of unique IP addresses with active connections"@,
            "{addresses}"@,
            MetricKind::Gauge,
            MetricValue::Unsigned(busy_addresses(m) as u64),
            service,
            now,
        ),
        own_metric(
            "ads.shutdown"@,
            "Whether the ADS service is in shutdown state"@,
            "1"@,
            MetricKind::Gauge,
            MetricValue::Unsigned(if m.shutting_down { 1 } else { 0 }),
            service,
            now,
        ),
    ]
}

/// Makes the metrics of a connection manager.
pub struct AdsHealthCollector {
    service_name: String,
}

impl View for AdsHealthCollector {
    type V = Seq<char>;

    closed spec fn view(&self) -> Seq<char> {
        self.service_name@
    }
}

impl AdsHealthCollector {
    pub fn new(service_name: String) -> (r: Self)
        ensures
            r@ == service_name@,
    {
        AdsHealthCollector { service_name }
    }

    pub fn collect(&self, conn_manager: &ConnectionManager, now: Timestamp) -> (r: Vec<MetricEntry>)
        ensures
            metric_views(r@) == connection_metrics(conn_manager@, self@, now),
    {
        let active: u64 = conn_manager.active_connections() as u64;
        let max: u64 = conn_manager.max_connections() as u64;
        let ips = conn_manager.connected_ips();
        proof {
            let pairs = ips@.map_values(|t: (String, usize)| (t.0@, t.1));
            lemma_map_of_len(pairs);
            assert(map_of(pairs).dom() =~= Set::new(|ip: Seq<char>| state_of(conn_manager@, ip).active > 0));
        }
        let used = if max > 0 {
            MetricValue::Ratio(active, max)
        } else {
            MetricValue::Unsigned(0)
        };
        let shutting_down: u64 = if conn_manager.is_shutting_down() {
            1
        } else {
            0
        };
        let s: &str = &self.service_name;
        let mut r: Vec<MetricEntry> = Vec::new();
        r.push(
            own_gauge(
                "ads.connections.active",
                "Number of currently active ADS connections",
                "{connections}",
                MetricValue::Unsigned(active),
                s,
                now,
            ),
        );
        r.push(
            own_counter(
                "ads.connections.accepted",
                "Total ADS connections accepted since startup",
                "{connections}",
                MetricValue::Unsigned(conn_manager.total_accepted()),
                s,
                now,
            ),
        );
        r.push(
            own_counter(
                "ads.connections.rejected",
                "Total ADS connections rejected since startup",
                "{connections}",
                MetricValue::Unsigned(conn_manager.total_rejected()),
                s,
                now,
            ),
        );
        r.push(
            own_gauge(
                "ads.connections.limit",
                "Configured maximum concurrent ADS connections",
                "{connections}",
                MetricValue::Unsigned(max),
                s,
                now,
            ),
        );
        r.push(
            own_gauge(
                "ads.connections.utilization",
                "Ratio of active connections to configured limit",
                "1",
                used,
                s,
                now,
            ),
        );
        r.push(
            own_gauge(
                "ads.connected_ips",
                "Number of unique IP addresses with active connections",
                "{addresses}",
                MetricValue::Unsigned(ips.len() as u64),
                s,
                now,
            ),
        );
        r.push(
            own_gauge(
                "ads.shutdown",
                "Whether the ADS service is in shutdown state",
                "1",
                MetricValue::Unsigned(shutting_down),
                s,
                now,
            ),
        );
        assert(metric_views(r@) =~= connection_metrics(conn_manager@, self@, now));
        r
    }
}

} // verus!
