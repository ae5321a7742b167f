//! What services, clients and settings start with, and what their records show.
use vstd::prelude::*;

use crate::ams::AmsNetId;
use crate::ams_server::AmsTcpServer;
use crate::client::error::ClientError;
use crate::client::poll::Poller;
use crate::client::{DispatcherClient, SymbolMeta, SymbolReader};
use crate::config::CustomMetricDef;
use crate::connection_manager::ConnectionConfig;
use crate::diagnostics_poller::TargetConfig;
use crate::dispatcher::AmsDispatcher;
use crate::frame::law_prefix_reads_back;
use crate::models::{LogEntry, MetricEntry, MetricValue};
use crate::mqtt_health_metrics::MqttHealthCollector;
use crate::protocol::AdsLogEntry;
use crate::registry::TaskRegistry;
use crate::router::AdsRouter;
use crate::time::{Duration, Timestamp};
use crate::topics::{ams_topic, info_topic};
use crate::transport::local_router::{LinkEvent, LocalRouterAmsTransport};
use crate::transport::mqtt::{MqttTlsConfig, MqttTransportConfig};
use crate::transport::tcp::{default_config, TcpAmsTransport};
use crate::wire::{le16, u16_at, u32_at};

verus! {

broadcast use crate::wire::group_wire;

/// A service that sets no limits takes a hundred connections, ten of them and ten a second from
/// one address, and has the usual times and sizes.
pub proof fn law_default_limits(c: ConnectionConfig)
    requires
        call_ensures(ConnectionConfig::default, (), c),
    ensures
        c == default_config(),
        c.max_connections == 100,
        c.max_connections_per_ip == 10,
        c.rate_limit_per_sec_per_ip == 10,
        c.idle_timeout_secs == 300,
        c.keepalive_interval_secs == 60,
        c.send_buffer_size == 1024 * 1024,
        c.shutdown_timeout_secs == 30,
{
}

/// A target that is not configured otherwise is polled each second for everything, at the usual
/// ports of its tasks and of its realtime system.
pub proof fn law_default_targets(net_id: AmsNetId, t: TargetConfig)
    requires
        call_ensures(TargetConfig::with_defaults, (net_id,), t),
    ensures
        t.net_id@ == net_id@,
        t.poll_interval.total_nanos() == 1_000_000_000,
        t.exceed_counter,
        t.rt_usage,
        t.task_ports@ == seq![340u16, 350, 351],
        t.rt_port == 200,
        t.task_names@.dom().len() == 0,
{
    assert(t@.task_names == t.task_names@);
}

/// A new router knows the tasks of its registry and has no output for batches and traces until
/// one is connected.
pub proof fn law_new_routers(port: u16, metrics: bool, registry: TaskRegistry, r: AdsRouter, p: AdsRouter, t: AdsRouter)
    requires
        call_ensures(AdsRouter::new, (port, metrics, registry), r),
        call_ensures(AdsRouter::with_push_sender, (r,), p),
        call_ensures(AdsRouter::with_trace_sender, (r,), t),
    ensures
        r@.ads_port == port,
        r@.metrics == metrics,
        !r@.push,
        !r@.trace,
        r@.tasks == registry@,
        p@.push && !p@.trace && p@.ads_port == port && p@.tasks == registry@,
        t@.trace && !t@.push && t@.ads_port == port && t@.tasks == registry@,
{
}

/// A new dispatcher has its own address, no routes, nothing that waits, and counts from one.
pub proof fn law_new_dispatchers(net_id: AmsNetId, port: u16, d: AmsDispatcher)
    requires
        call_ensures(AmsDispatcher::new, (net_id, port), d),
    ensures
        d@.source_net_id == net_id@,
        d@.source_port == port,
        d@.routes.dom().len() == 0,
        d@.pending.dom().len() == 0,
        d@.invoke_counter == 1,
        d@.mqtt is None,
{
}

/// A client of one port of a PLC waits five seconds for an answer, unless it is told otherwise.
pub proof fn law_new_clients(net_id: AmsNetId, port: u16, c: DispatcherClient, wait: Duration, d: DispatcherClient)
    requires
        call_ensures(DispatcherClient::new, (net_id, port), c),
        call_ensures(DispatcherClient::with_request_timeout, (c, wait), d),
    ensures
        c.target_net_id == net_id,
        c.target_port == port,
        c.request_timeout.total_nanos() == 5_000_000_000,
        d.target_net_id == net_id,
        d.target_port == port,
        d.request_timeout == wait,
{
}

/// The AMS/TCP service listens on port 48898 and starts without connections and tasks.
pub proof fn law_new_services(host: String, net_id: AmsNetId, ads_port: u16, s: AmsTcpServer, router: AdsRouter, t: TcpAmsTransport)
    requires
        call_ensures(AmsTcpServer::new, (host, net_id, ads_port), s),
        call_ensures(TcpAmsTransport::new, (host, net_id, router), t),
    ensures
        s@.host == host@,
        s@.net_id == net_id@,
        s@.port == 48898,
        s@.router.ads_port == ads_port,
        s@.router.tasks.dom().len() == 0,
        !s@.router.metrics && !s@.router.push && !s@.router.trace,
        s@.connections.active == 0,
        s@.connections.config == default_config(),
        t@.host == host@,
        t@.net_id == net_id@,
        t@.port == 48898,
        t@.router == router@,
        t@.connections.active == 0,
        t@.connections.config == default_config(),
{
}

/// A registration at the router of the same machine asks for a port by its number; giving it back
/// carries nothing. After a failure the client pauses five seconds, after an end two.
pub proof fn law_local_registration(
    c: &LocalRouterAmsTransport,
    packet: Vec<u8>,
    back: Vec<u8>,
    event: LinkEvent,
    pause: Duration,
)
    requires
        call_ensures(LocalRouterAmsTransport::registration, (c,), packet),
        call_ensures(LocalRouterAmsTransport::deregistration, (), back),
        call_ensures(LocalRouterAmsTransport::pause_after, (event,), pause),
    ensures
        packet@.len() == 8,
        u16_at(packet@, 0) == 0x1000,
        u32_at(packet@, 2) == 2,
        u16_at(packet@, 6) == c@.register_port,
        back@.len() == 6,
        u16_at(back@, 0) == 1,
        u32_at(back@, 2) == 0,
        event is ConnectionEnded ==> pause.total_nanos() == 2_000_000_000,
        !(event is ConnectionEnded) ==> pause.total_nanos() == 5_000_000_000,
{
    let body = le16(c@.register_port);
    law_prefix_reads_back(0x1000, body);
    law_prefix_reads_back(1, Seq::empty());
    assert(packet@.skip(6) == body);
    assert(packet@.subrange(6, 8) =~= body);
    crate::encoding::lemma_word_read(packet@, 6, c@.register_port);
}

/// A client of the router of the same machine registers port 16150, unless it is told otherwise,
/// and has no Net ID until the router gives it one.
pub proof fn law_new_local_clients(host: String, port: u16, c: LocalRouterAmsTransport, other: u16, d: LocalRouterAmsTransport)
    requires
        call_ensures(LocalRouterAmsTransport::new, (host, port), c),
        call_ensures(LocalRouterAmsTransport::with_register_port, (c, other), d),
    ensures
        c@.router_host == host@,
        c@.router_port == port,
        c@.register_port == 16150,
        forall|i: int| 0 <= i < 6 ==> #[trigger] c@.local_net_id[i] == 0,
        d@.register_port == other,
        d@.router_host == host@,
        d@.router_port == port,
{
}

/// Over MQTT the service listens on its own topic. Credentials and client certificates are used
/// only where both of their parts are given.
pub proof fn law_mqtt_settings(
    c: &MqttTransportConfig,
    topic: String,
    login: Option<(&String, &String)>,
    tls: &MqttTlsConfig,
    files: Option<(&String, &String)>,
    hello: (String, String),
)
    requires
        call_ensures(MqttTransportConfig::subscribe_topic, (c,), topic),
        call_ensures(MqttTransportConfig::credentials, (c,), login),
        call_ensures(MqttTlsConfig::client_files, (tls,), files),
        call_ensures(MqttTransportConfig::on_connected, (c,), hello),
    ensures
        topic@ == ams_topic(c.topic_prefix@, c.local_net_id@),
        hello.0@ == info_topic(c.topic_prefix@, c.local_net_id@),
        login is Some <==> c.username is Some && c.password is Some,
        login matches Some((user, secret)) ==> c.username == Some(*user) && c.password == Some(*secret),
        files is Some <==> tls.client_cert_path is Some && tls.client_key_path is Some,
        files matches Some((cert, key)) ==> tls.client_cert_path == Some(*cert) && tls.client_key_path == Some(*key),
{
}

/// Only gauges and sums can be polled; such a poller starts with its definition, its symbol and
/// the shortest wait.
pub proof fn law_new_pollers<R: SymbolReader>(
    def: CustomMetricDef,
    meta: SymbolMeta,
    reader: std::sync::Arc<R>,
    r: Result<Poller<R>, ClientError>,
)
    requires
        call_ensures(Poller::<R>::new, (def, meta, reader), r),
    ensures
        r is Ok <==> !(def.kind is Histogram),
        r matches Ok(p) ==> p.def == def && p.meta == meta && p.reader == reader && p.backoff_ms == 250,
{
}

/// A collector starts without a connection and with nothing counted.
pub proof fn law_new_collectors(service: String, c: MqttHealthCollector)
    requires
        call_ensures(MqttHealthCollector::new, (service,), c),
    ensures
        c@.service == service@,
        !c@.connected,
        c@.reconnects == 0,
        c@.publish_errors == 0,
        c@.incoming_frames == 0,
        c@.subscribe_latency_ms is None,
{
}

/// Gauges, sums and histograms have the name, the value and the time that they are made with; a
/// histogram its bounds and counts; and nothing else.
pub proof fn law_new_metrics(
    name: String,
    value: MetricValue,
    rising: bool,
    now: Timestamp,
    bounds: Vec<MetricValue>,
    counts: Vec<u64>,
    count: u64,
    g: MetricEntry,
    s: MetricEntry,
    h: MetricEntry,
)
    requires
        call_ensures(MetricEntry::gauge, (name, value, now), g),
        call_ensures(MetricEntry::sum, (name, value, rising, now), s),
        call_ensures(MetricEntry::histogram, (name, bounds, counts, count, value, now), h),
    ensures
        g.name@ == name@ && s.name@ == name@ && h.name@ == name@,
        g.kind is Gauge && s.kind is Sum && h.kind is Histogram,
        g.value == value && s.value == value && h.value == value,
        g.timestamp == now && s.timestamp == now && h.timestamp == now,
        !g.is_monotonic && s.is_monotonic == rising && !h.is_monotonic,
        h.histogram_bounds@ == bounds@,
        h.histogram_counts@ == counts@,
        h.histogram_count == count,
        h.histogram_sum == value,
        g.histogram_bounds@.len() == 0 && g.histogram_counts@.len() == 0 && g.histogram_count == 0,
        s.histogram_bounds@.len() == 0 && s.histogram_counts@.len() == 0 && s.histogram_count == 0,
        forall|m: MetricEntry|
            (m == g || m == s || m == h) ==> {
                &&& (#[trigger] m.description)@.len() == 0
                &&& m.unit@.len() == 0
                &&& m.source@.len() == 0
                &&& m.hostname@.len() == 0
                &&& m.ams_net_id@.len() == 0
                &&& m.ams_source_port == 0
                &&& m.task_index == 0
                &&& m.task_name@.len() == 0
                &&& m.task_cycle_counter == 0
                &&& m.app_name@.len() == 0
                &&& m.project_name@.len() == 0
                &&& m.attributes@.dom().len() == 0
            },
{
}

/// What is said of a log record is said of its own fields.
pub proof fn law_records_show_their_fields(l: LogEntry, e: AdsLogEntry)
    ensures
        l@.source == l.source@,
        l@.hostname == l.hostname@,
        l@.message == l.message@,
        l@.logger == l.logger@,
        l@.level == l.level,
        l@.plc_timestamp == l.plc_timestamp,
        l@.clock_timestamp == l.clock_timestamp,
        l@.task_index == l.task_index,
        l@.task_name == l.task_name@,
        l@.task_cycle_counter == l.task_cycle_counter,
        l@.app_name == l.app_name@,
        l@.project_name == l.project_name@,
        l@.online_change_count == l.online_change_count,
        l@.arguments == l.arguments@,
        l@.context == l.context@,
        l@.ams_net_id == l.ams_net_id@,
        l@.ams_source_port == l.ams_source_port,
        l@.trace_id == l.trace_id@,
        l@.span_id == l.span_id@,
        e@.version == e.version,
        e@.message == e.message@,
        e@.logger == e.logger@,
        e@.level == e.level,
        e@.plc_timestamp == e.plc_timestamp,
        e@.clock_timestamp == e.clock_timestamp,
        e@.task_index == e.task_index,
        e@.task_name == e.task_name@,
        e@.task_cycle_counter == e.task_cycle_counter,
        e@.app_name == e.app_name@,
        e@.project_name == e.project_name@,
        e@.online_change_count == e.online_change_count,
        e@.arguments == e.arguments@,
        e@.context == e.context@,
        e@.trace_id == e.trace_id@,
        e@.span_id == e.span_id@,
{
}

} // verus!
