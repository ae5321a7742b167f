//! When connections are accepted, and what the metrics on the service's own health show.
use vstd::prelude::*;

use crate::connection_manager::{
    acquired, recent_stamps, released, state_of, ConnectionConfig, ConnectionManager, ConnectionRejection,
    ManagerView, RejectionView,
};
use crate::health_metrics::{busy_addresses, connection_metrics};
use crate::models::{MetricEntryView, MetricKind, MetricValue};
use crate::mqtt_health_metrics::{all_metrics, MqttHealthView};
use crate::text::dec;
use crate::time::{Tick, Timestamp};

verus! {

// Connections.

/// The stamps that count against the rate are those of the last second, in their order.
pub proof fn law_rates_count_the_last_second(stamps: Seq<Tick>, now: Tick)
    ensures
        recent_stamps(stamps, now) == stamps.filter(|t: Tick| now.nanos - t.nanos < 1_000_000_000),
    decreases stamps.len(),
{
    reveal(Seq::filter);
    if stamps.len() > 0 {
        law_rates_count_the_last_second(stamps.drop_last(), now);
    }
}

/// How many connections an address made in the last second.
pub open spec fn last_second(m: ManagerView, ip: Seq<char>, now: Tick) -> nat {
    state_of(m, ip).stamps.filter(|t: Tick| now.nanos - t.nanos < 1_000_000_000).len()
}

/// A connection is accepted exactly if the service is not shutting down, there is room in all and
/// for the address, and the address has not made too many within a second. Otherwise the first of
/// these that fails is the reason.
pub proof fn law_connections_are_accepted_within_limits(m: ManagerView, ip: Seq<char>, now: Tick)
    ensures
        ({
            let r = acquired(m, ip, now).1;
            let room = m.active < m.config.max_connections;
            let own_room = state_of(m, ip).active < m.config.max_connections_per_ip;
            let slow = last_second(m, ip, now) < m.config.rate_limit_per_sec_per_ip;
            &&& r == Ok::<Seq<char>, RejectionView>(ip) <==> !m.shutting_down && room && own_room && slow
            &&& r == Err::<Seq<char>, RejectionView>(RejectionView::ShuttingDown) <==> m.shutting_down
            &&& r == Err::<Seq<char>, RejectionView>(RejectionView::MaxConnectionsReached) <==> !m.shutting_down
                && !room
            &&& r == Err::<Seq<char>, RejectionView>(
                RejectionView::PerIpLimitReached { ip, current: state_of(m, ip).active },
            ) <==> !m.shutting_down && room && !own_room
            &&& r == Err::<Seq<char>, RejectionView>(RejectionView::RateLimitExceeded { ip }) <==> !m.shutting_down
                && room && own_room && !slow
        }),
{
    law_rates_count_the_last_second(state_of(m, ip).stamps, now);
}

/// An accepted connection counts as accepted and a refused one as refused, and each attempt counts
/// once. An accepted connection counts against the rate of its address from then on; the settings
/// never change.
pub proof fn law_attempts_are_counted(m: ManagerView, ip: Seq<char>, now: Tick)
    ensures
        ({
            let (after, r) = acquired(m, ip, now);
            &&& r is Ok ==> after.accepted == (m.accepted + 1) % 0x1_0000_0000_0000_0000 && after.rejected == m.rejected
            &&& r is Err ==> after.rejected == (m.rejected + 1) % 0x1_0000_0000_0000_0000 && after.accepted == m.accepted
            &&& r is Ok ==> state_of(after, ip).stamps == state_of(m, ip).stamps.filter(
                |t: Tick| now.nanos - t.nanos < 1_000_000_000,
            ).push(now)
            &&& r is Ok ==> last_second(after, ip, now) == last_second(m, ip, now) + 1
            &&& after.config == m.config
            &&& after.shutting_down == m.shutting_down
            &&& released(m, ip).accepted == m.accepted
            &&& released(m, ip).rejected == m.rejected
            &&& released(m, ip).config == m.config
            &&& released(m, ip).shutting_down == m.shutting_down
        }),
{
    law_rates_count_the_last_second(state_of(m, ip).stamps, now);
    let (after, r) = acquired(m, ip, now);
    if r is Ok {
        let kept = recent_stamps(state_of(m, ip).stamps, now);
        law_recent_stays_recent(state_of(m, ip).stamps, now);
        law_rates_count_the_last_second(kept.push(now), now);
        assert(kept.push(now).drop_last() =~= kept);
        assert(recent_stamps(kept.push(now), now) == recent_stamps(kept, now).push(now));
    }
}

/// What counts against the rate now still does when it is looked at again now.
pub proof fn law_recent_stays_recent(stamps: Seq<Tick>, now: Tick)
    ensures
        recent_stamps(recent_stamps(stamps, now), now) == recent_stamps(stamps, now),
    decreases stamps.len(),
{
    if stamps.len() > 0 {
        let front = recent_stamps(stamps.drop_last(), now);
        law_recent_stays_recent(stamps.drop_last(), now);
        assert(front.push(stamps.last()).drop_last() =~= front);
    }
}

/// A refused attempt does not count against any rate.
pub proof fn law_refusals_do_not_count_against_the_rate(m: ManagerView, ip: Seq<char>, now: Tick, other: Seq<char>)
    requires
        acquired(m, ip, now).1 is Err,
    ensures
        last_second(acquired(m, ip, now).0, other, now) == last_second(m, other, now),
{
    law_rates_count_the_last_second(state_of(m, ip).stamps, now);
    law_recent_stays_recent(state_of(m, ip).stamps, now);
    law_rates_count_the_last_second(recent_stamps(state_of(m, ip).stamps, now), now);
}

/// The end of a connection gives one slot back, in all and for its address. An address without
/// connections and without recent attempts is forgotten.
pub proof fn law_ends_give_slots_back(m: ManagerView, ip: Seq<char>)
    ensures
        ({
            let after = released(m, ip);
            &&& m.active > 0 ==> after.active == m.active - 1
            &&& m.active == 0 ==> after.active == 0
            &&& state_of(m, ip).active > 0 ==> state_of(after, ip).active == state_of(m, ip).active - 1
            &&& state_of(after, ip).stamps == state_of(m, ip).stamps
            &&& after.ips.dom().contains(ip) ==> after.ips[ip].active > 0 || after.ips[ip].stamps.len() > 0
        }),
{
}

/// A new manager has no connections, has counted nothing, is not shutting down and keeps its
/// settings.
pub proof fn law_new_managers_are_idle(config: ConnectionConfig, m: ConnectionManager)
    requires
        call_ensures(ConnectionManager::new, (config,), m),
    ensures
        m@.config == config,
        m@.active == 0,
        m@.accepted == 0,
        m@.rejected == 0,
        !m@.shutting_down,
        forall|ip: Seq<char>| (#[trigger] state_of(m@, ip)).active == 0 && state_of(m@, ip).stamps.len() == 0,
{
}

/// A refusal says why: which address, and how many connections it has.
pub proof fn law_refusals_say_why(e: ConnectionRejection, text: String)
    requires
        call_ensures(ConnectionRejection::to_string, (&e,), text),
    ensures
        match e {
            ConnectionRejection::MaxConnectionsReached => text@ == "maximum connection limit reached"@,
            ConnectionRejection::PerIpLimitReached { ip, current } => text@ == "per-IP connection limit reached for "@
                + ip@ + " ("@ + dec(current as nat) + " active)"@,
            ConnectionRejection::RateLimitExceeded { ip } => text@ == "connection rate limit exceeded for "@ + ip@,
            ConnectionRejection::ShuttingDown => text@ == "service is shutting down"@,
        },
{
}

// Metrics.

/// `m` shows a value under a name, as a metric of the service itself.
pub open spec fn shows(
    m: MetricEntryView,
    name: Seq<char>,
    description: Seq<char>,
    unit: Seq<char>,
    kind: MetricKind,
    value: MetricValue,
    service: Seq<char>,
    now: Timestamp,
) -> bool {
    &&& m.name == name
    &&& m.description == description
    &&& m.unit == unit
    &&& m.kind == kind
    &&& m.value == value
    &&& m.is_monotonic == (kind is Sum)
    &&& m.project_name == service
    &&& m.source == "tc-otel"@
    &&& m.timestamp == now
    &&& m.hostname.len() == 0
    &&& m.ams_net_id.len() == 0
    &&& m.ams_source_port == 0
    &&& m.task_index == 0
    &&& m.task_name.len() == 0
    &&& m.task_cycle_counter == 0
    &&& m.app_name.len() == 0
    &&& m.attributes.dom().len() == 0
}

/// The health of the connections is shown by seven metrics: the open connections, those accepted
/// and refused so far, the limit, the share of it in use, the addresses with connections, and
/// whether the service is shutting down.
pub proof fn law_connection_health_is_shown(m: ManagerView, service: Seq<char>, now: Timestamp)
    ensures
        ({
            let all = connection_metrics(m, service, now);
            let busy = Set::new(|ip: Seq<char>| m.ips.dom().contains(ip) && m.ips[ip].active > 0);
            &&& all.len() == 7
            &&& shows(
                all[0],
                "ads.connections.active"@,
                "Number of currently active ADS connections"@,
                "{connections}"@,
                MetricKind::Gauge,
                MetricValue::Unsigned(m.active as u64),
                service,
                now,
            )
            &&& shows(
                all[1],
                "ads.connections.accepted"@,
                "Total ADS connections accepted since startup"@,
                "{connections}"@,
                MetricKind::Sum,
                MetricValue::Unsigned(m.accepted),
                service,
                now,
            )
            &&& shows(
                all[2],
                "ads.connections.rejected"@,
                "Total ADS connections rejected since startup"@,
                "{connections}"@,
                MetricKind::Sum,
                MetricValue::Unsigned(m.rejected),
                service,
                now,
            )
            &&& shows(
                all[3],
                "ads.connections.limit"@,
                "Configured maximum concurrent ADS connections"@,
                "{connections}"@,
                MetricKind::Gauge,
                MetricValue::Unsigned(m.config.max_connections as u64),
                service,
                now,
            )
            &&& shows(
                all[4],
                "ads.connections.utilization"@,
                "Ratio of active connections to configured limit"@,
                "1"@,
                MetricKind::Gauge,
                if m.config.max_connections == 0 {
                    MetricValue::Unsigned(0)
                } else {
                    MetricValue::Ratio(m.active as u64, m.config.max_connections as u64)
                },
                service,
                now,
            )
            &&& shows(
                all[5],
                "ads.connected_ips"@,
                "Number of unique IP addresses with active connections"@,
                "{addresses}"@,
                MetricKind::Gauge,
                MetricValue::Unsigned(busy.len() as u64),
                service,
                now,
            )
            &&& shows(
                all[6],
                "ads.shutdown"@,
                "Whether the ADS service is in shutdown state"@,
                "1"@,
                MetricKind::Gauge,
                MetricValue::Unsigned(if m.shutting_down { 1 } else { 0 }),
                service,
                now,
            )
        }),
{
    let busy = Set::new(|ip: Seq<char>| m.ips.dom().contains(ip) && m.ips[ip].active > 0);
    assert(busy =~= Set::new(|ip: Seq<char>| state_of(m, ip).active > 0));
    assert(busy_addresses(m) == busy.len());
}

/// The health of the broker connection is shown by four metrics: whether it is up, and how many
/// reconnects, failed publishes and incoming frames there were.
pub proof fn law_broker_health_is_shown(h: MqttHealthView, now: Timestamp)
    ensures
        ({
            let all = all_metrics(h, now);
            &&& all.len() == (if h.subscribe_latency_ms is Some { 5int } else { 4 })
            &&& shows(
                all[0],
                "ads_mqtt_broker_connected"@,
                "Whether the MQTT broker connection is active (0 or 1)"@,
                "1"@,
                MetricKind::Gauge,
                MetricValue::Unsigned(if h.connected { 1 } else { 0 }),
                h.service,
                now,
            )
            &&& shows(
                all[1],
                "ads_mqtt_reconnect_total"@,
                "Total MQTT reconnection attempts since startup"@,
                "{attempts}"@,
                MetricKind::Sum,
                MetricValue::Unsigned(h.reconnects),
                h.service,
                now,
            )
            &&& shows(
                all[2],
                "ads_mqtt_publish_errors_total"@,
                "Total MQTT publish errors since startup"@,
                "{errors}"@,
                MetricKind::Sum,
                MetricValue::Unsigned(h.publish_errors),
                h.service,
                now,
            )
            &&& shows(
                all[3],
                "ads_mqtt_incoming_frames_total"@,
                "Total MQTT incoming frames received since startup"@,
                "{frames}"@,
                MetricKind::Sum,
                MetricValue::Unsigned(h.incoming_frames),
                h.service,
                now,
            )
        }),
{
}

/// The latency of the first subscription is shown, once it is known, as a histogram in seconds: one
/// observation, in the bucket whose bounds enclose it, and the latency itself as its sum.
pub proof fn law_subscribe_latency_is_shown(h: MqttHealthView, ms: u64, now: Timestamp, i: int)
    requires
        h.subscribe_latency_ms == Some(ms),
    ensures
        ({
            let m = all_metrics(h, now)[4];
            let bounds = seq![1u64, 5, 10, 50, 100, 500, 1000];
            &&& shows(
                m,
                "ads_mqtt_subscribe_latency_seconds"@,
                "Time elapsed until first successful MQTT subscribe"@,
                "s"@,
                MetricKind::Histogram,
                MetricValue::Ratio(ms, 1000),
                h.service,
                now,
            )
            &&& m.histogram_count == 1
            &&& m.histogram_sum == MetricValue::Ratio(ms, 1000)
            &&& m.histogram_bounds.len() == 7
            &&& m.histogram_counts.len() == 8
            &&& 0 <= i < 7 ==> m.histogram_bounds[i] == MetricValue::Ratio(bounds[i], 1000)
            &&& 0 <= i < 8 ==> m.histogram_counts[i] == (if (i == 0 || bounds[i - 1] <= ms) && (i == 7 || ms < bounds[i]) {
                1u64
            } else {
                0u64
            })
        }),
{
}

} // verus!
