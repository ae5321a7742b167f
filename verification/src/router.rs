//! What is done with a request frame: which answer it gets, and which records it gives.
use vstd::prelude::*;

use crate::ams::{
    dotted, net_id_of, AdsWriteRequest, AdsWriteRequestView, AmsHeader, AmsHeaderView, AmsNetId,
    ADSERR_DEVICE_SRVNOTSUPP, ADS_CMD_ADD_NOTIFICATION, ADS_CMD_READ, ADS_CMD_READ_DEVICE_INFO, ADS_CMD_READ_STATE,
    ADS_CMD_READ_WRITE, ADS_CMD_WRITE, ADS_STATE_RESPONSE,
};
use crate::diagnostics::{viewed, DiagEvent, DiagEventView, IG_PUSH_DIAG, IO_PUSH_BATCH, IO_PUSH_METRIC_AGG};
use crate::diagnostics_push::{aggregate_of, batch_of, decode_batch, decode_metric_aggregate};
use crate::error::{AdsError, AdsErrorView};
use crate::models::{LogEntry, LogEntryView, MetricEntry, MetricEntryView, MetricValue};
use crate::parser::{parse_outcome, AdsParser, ParseResult};
use crate::protocol::{
    AdsLogEntry, AdsLogEntryView, AdsMetricEntry, AdsMetricEntryView, AdsProtocolVersion, RegistrationKey,
    RegistrationKeyView, RegistrationMessage, RegistrationMessageView, TaskMetadata, TaskMetadataView, TraceWireEvent,
};
use crate::registry::TaskRegistry;
use crate::time::{utc_now, Timestamp};
use crate::wire::{get_u32, le16, le32, put_slice, put_u16, put_u32, put_zeros, u32_at};

verus! {

broadcast use crate::wire::group_wire;

pub type Tasks = Map<RegistrationKeyView, TaskMetadataView>;

/// The low byte of a task index.
pub open spec fn task_byte(index: i32) -> u8 {
    (index as int % 256) as u8
}

/// The key of a task.
pub open spec fn task_key(net_id: Seq<char>, port: u16, index: u8) -> RegistrationKeyView {
    RegistrationKeyView { ams_net_id: net_id, ams_source_port: port, task_index: index }
}

/// What a registration says of its task.
pub open spec fn metadata_of(m: RegistrationMessageView) -> TaskMetadataView {
    TaskMetadataView {
        task_name: m.task_name,
        app_name: m.app_name,
        project_name: m.project_name,
        online_change_count: m.online_change_count,
        app_port: 0,
    }
}

/// The tasks after the registrations; the last one for a task counts.
pub open spec fn registered(
    tasks: Tasks,
    net_id: Seq<char>,
    port: u16,
    messages: Seq<RegistrationMessageView>,
) -> Tasks
    decreases messages.len(),
{
    if messages.len() == 0 {
        tasks
    } else {
        registered(tasks, net_id, port, messages.drop_last()).insert(
            task_key(net_id, port, messages.last().task_index),
            metadata_of(messages.last()),
        )
    }
}

/// An entry of the second format carries no names: they are those of its task, where it is
/// registered.
pub open spec fn enriched(tasks: Tasks, net_id: Seq<char>, port: u16, e: AdsLogEntryView) -> AdsLogEntryView {
    let key = task_key(net_id, port, task_byte(e.task_index));
    if e.version == AdsProtocolVersion::V2 && tasks.dom().contains(key) {
        AdsLogEntryView {
            task_name: tasks[key].task_name,
            app_name: tasks[key].app_name,
            project_name: tasks[key].project_name,
            online_change_count: tasks[key].online_change_count,
            ..e
        }
    } else {
        e
    }
}

/// The name of the host behind a Net ID.
pub open spec fn host_of(net_id: Seq<char>) -> Seq<char> {
    "plc-"@ + net_id
}

/// The record of an entry.
pub open spec fn log_of(net_id: Seq<char>, port: u16, e: AdsLogEntryView) -> LogEntryView {
    LogEntryView {
        source: net_id,
        hostname: host_of(net_id),
        message: e.message,
        logger: e.logger,
        level: e.level,
        plc_timestamp: e.plc_timestamp,
        clock_timestamp: e.clock_timestamp,
        task_index: e.task_index,
        task_name: e.task_name,
        task_cycle_counter: e.task_cycle_counter,
        app_name: e.app_name,
        project_name: e.project_name,
        online_change_count: e.online_change_count,
        arguments: e.arguments,
        context: e.context,
        ams_net_id: net_id,
        ams_source_port: port,
        trace_id: e.trace_id,
        span_id: e.span_id,
    }
}

/// The records of the entries, in order.
pub open spec fn logs_of(tasks: Tasks, net_id: Seq<char>, port: u16, entries: Seq<AdsLogEntryView>) -> Seq<
    LogEntryView,
> {
    entries.map_values(|e: AdsLogEntryView| log_of(net_id, port, enriched(tasks, net_id, port, e)))
}

/// The record of a metric, with the names of its task where it is registered.
pub open spec fn metric_of(tasks: Tasks, net_id: Seq<char>, port: u16, e: AdsMetricEntryView) -> MetricEntryView {
    let key = task_key(net_id, port, task_byte(e.task_index));
    let known = tasks.dom().contains(key);
    MetricEntryView {
        name: e.name,
        description: e.description,
        unit: e.unit,
        kind: e.kind,
        value: MetricValue::Lreal(e.value),
        timestamp: e.timestamp,
        source: net_id,
        hostname: host_of(net_id),
        ams_net_id: net_id,
        ams_source_port: port,
        task_index: e.task_index,
        task_name: if known { tasks[key].task_name } else { Seq::empty() },
        task_cycle_counter: e.task_cycle_counter,
        app_name: if known { tasks[key].app_name } else { Seq::empty() },
        project_name: if known { tasks[key].project_name } else { Seq::empty() },
        attributes: e.attributes,
        histogram_bounds: e.histogram_bounds.map_values(|x: crate::models::Lreal| MetricValue::Lreal(x)),
        histogram_counts: e.histogram_counts,
        histogram_count: e.histogram_count,
        histogram_sum: MetricValue::Lreal(e.histogram_sum),
        is_monotonic: e.is_monotonic,
    }
}

/// The records of the metrics, in order.
pub open spec fn metrics_of(tasks: Tasks, net_id: Seq<char>, port: u16, entries: Seq<AdsMetricEntryView>) -> Seq<
    MetricEntryView,
> {
    entries.map_values(|e: AdsMetricEntryView| metric_of(tasks, net_id, port, e))
}

/// The low byte of a task index.
fn index_byte(index: i32) -> (r: u8)
    ensures
        r == task_byte(index),
{
    let shifted: i64 = index as i64 + 0x8000_0000;
    (shifted as u64 % 256) as u8
}

fn key_of(net_id: &str, port: u16, index: u8) -> (r: RegistrationKey)
    ensures
        r@ == task_key(net_id@, port, index),
{
    RegistrationKey { ams_net_id: net_id.to_string(), ams_source_port: port, task_index: index }
}

fn host_name(net_id: &str) -> (r: String)
    ensures
        r@ == host_of(net_id@),
{
    String::from_str("plc-").concat(net_id)
}

/// The routing state: the ADS port of the service, which outputs are connected, and the tasks
/// known so far.
pub struct AdsRouter {
    ads_port: u16,
    metrics: bool,
    push: bool,
    trace: bool,
    registry: TaskRegistry,
}

pub struct AdsRouterView {
    pub ads_port: u16,
    pub metrics: bool,
    pub push: bool,
    pub trace: bool,
    pub tasks: Tasks,
}

impl View for AdsRouter {
    type V = AdsRouterView;

    closed spec fn view(&self) -> AdsRouterView {
        AdsRouterView {
            ads_port: self.ads_port,
            metrics: self.metrics,
            push: self.push,
            trace: self.trace,
            tasks: self.registry@,
        }
    }
}

/// What a frame leads to: the answer, and what goes to the outputs.
pub struct Dispatched {
    pub response: Option<Vec<u8>>,
    pub logs: Vec<LogEntry>,
    pub push: Option<(AmsNetId, DiagEvent)>,
    pub traces: Vec<(AmsNetId, TraceWireEvent)>,
}

pub struct DispatchedView {
    pub response: Option<Seq<u8>>,
    pub logs: Seq<LogEntryView>,
    pub push: Option<(Seq<u8>, DiagEventView)>,
    pub traces: Seq<(Seq<u8>, TraceWireEvent)>,
}

pub open spec fn log_views(logs: Seq<LogEntry>) -> Seq<LogEntryView> {
    logs.map_values(|e: LogEntry| e@)
}

pub open spec fn trace_views(traces: Seq<(AmsNetId, TraceWireEvent)>) -> Seq<(Seq<u8>, TraceWireEvent)> {
    traces.map_values(|t: (AmsNetId, TraceWireEvent)| (t.0@, t.1))
}

impl View for Dispatched {
    type V = DispatchedView;

    open spec fn view(&self) -> DispatchedView {
        DispatchedView {
            response: match self.response {
                Some(r) => Some(r@),
                None => None,
            },
            logs: log_views(self.logs@),
            push: match self.push {
                Some((id, e)) => Some((id@, e@)),
                None => None,
            },
            traces: trace_views(self.traces@),
        }
    }
}

/// The number of bytes that a read request asks for.
pub open spec fn wanted_len(frame: Seq<u8>) -> u32 {
    if frame.len() >= 44 { u32_at(frame, 40) } else { 0 }
}

/// What the answer to a frame carries: fixed data for state and device information, zeros for a
/// read, success for a write, and "service not supported" for everything else.
pub open spec fn reply_body(command: u16, frame: Seq<u8>) -> Seq<u8> {
    if command == ADS_CMD_READ_STATE {
        seq![0u8, 0, 0, 0, 5, 0, 0, 0]
    } else if command == ADS_CMD_READ_DEVICE_INFO {
        le32(0) + seq![0u8, 1] + le16(1) + seq![116u8, 99, 45, 111, 116, 101, 108] + Seq::new(9, |i: int| 0u8)
    } else if command == ADS_CMD_READ {
        le32(0) + le32(wanted_len(frame)) + Seq::new(wanted_len(frame) as nat, |i: int| 0u8)
    } else if command == ADS_CMD_WRITE {
        le32(0)
    } else if command == ADS_CMD_READ_WRITE || command == ADS_CMD_ADD_NOTIFICATION {
        le32(ADSERR_DEVICE_SRVNOTSUPP) + le32(0)
    } else {
        le32(ADSERR_DEVICE_SRVNOTSUPP)
    }
}

/// The answer to `h` with `body`; its length field holds the length modulo 2^32.
pub open spec fn reply(h: AmsHeaderView, body: Seq<u8>) -> Seq<u8> {
    h.answer(0, (body.len() % 0x1_0000_0000) as u32).bytes() + body
}

/// What a pushed batch says.
#[verifier::opaque]
pub open spec fn pushed(w: AdsWriteRequestView) -> Option<DiagEventView> {
    if w.index_offset == IO_PUSH_BATCH {
        batch_of(w.data)
    } else if w.index_offset == IO_PUSH_METRIC_AGG {
        aggregate_of(w.data)
    } else {
        None
    }
}

/// The trace events, each with the Net ID that `net_id` writes; none where it writes none.
pub open spec fn traces_of(net_id: Seq<char>, events: Seq<TraceWireEvent>) -> Seq<(Seq<u8>, TraceWireEvent)> {
    match net_id_of(net_id) {
        Ok(id) => events.map_values(|e: TraceWireEvent| (id, e)),
        Err(_) => Seq::empty(),
    }
}

/// What written log data leads to.
#[verifier::opaque]
pub open spec fn log_write(r: AdsRouterView, net_id: Seq<char>, port: u16, data: Seq<u8>, now: Timestamp) -> (
    AdsRouterView,
    Seq<LogEntryView>,
    Seq<(Seq<u8>, TraceWireEvent)>,
) {
    match parse_outcome(data, now) {
        Err(_) => (r, Seq::empty(), Seq::empty()),
        Ok(found) => {
            let tasks = registered(r.tasks, net_id, port, found.registrations);
            (
                AdsRouterView { tasks, ..r },
                logs_of(tasks, net_id, port, found.entries),
                if r.trace { traces_of(net_id, found.trace_events) } else { Seq::empty() },
            )
        },
    }
}

/// What a frame leads to, and the state after it.
pub open spec fn dispatched(r: AdsRouterView, frame: Seq<u8>, now: Timestamp) -> (AdsRouterView, DispatchedView) {
    let h = AmsHeaderView::read(frame);
    let quiet = DispatchedView {
        response: Some(reply(h, reply_body(h.command_id, frame))),
        logs: Seq::empty(),
        push: None,
        traces: Seq::empty(),
    };
    match AdsWriteRequestView::read(frame.skip(32)) {
        Ok(w) => if h.command_id != ADS_CMD_WRITE || h.target_port != r.ads_port {
            (r, quiet)
        } else if w.index_group == IG_PUSH_DIAG {
            match pushed(w) {
                Some(e) => if r.push {
                    (r, DispatchedView { push: Some((h.source_net_id, e)), ..quiet })
                } else {
                    (r, quiet)
                },
                None => (r, quiet),
            }
        } else {
            let (after, logs, traces) = log_write(r, dotted(h.source_net_id), h.source_port, w.data, now);
            (after, DispatchedView { logs, traces, ..quiet })
        },
        Err(_) => (r, quiet),
    }
}

/// Every frame with a whole header is answered: to its sender, with its command and invoke id,
/// as a response without an AMS error, and with a length that is right unless the body has 4 GiB.
pub proof fn law_every_frame_is_answered(r: AdsRouterView, frame: Seq<u8>, now: Timestamp)
    requires
        frame.len() >= 32,
    ensures
        dispatched(r, frame, now).1.response matches Some(answer) && {
            let asked = AmsHeaderView::read(frame);
            let h = AmsHeaderView::read(answer);
            &&& answer.len() >= 32
            &&& h.target_net_id == asked.source_net_id
            &&& h.target_port == asked.source_port
            &&& h.source_net_id == asked.target_net_id
            &&& h.source_port == asked.target_port
            &&& h.command_id == asked.command_id
            &&& h.invoke_id == asked.invoke_id
            &&& h.state_flags == ADS_STATE_RESPONSE
            &&& h.error_code == 0
            &&& wanted_len(frame) <= u32::MAX - 8 ==> h.data_length == answer.len() - 32
        },
{
    let asked = AmsHeaderView::read(frame);
    let body = reply_body(asked.command_id, frame);
    assert(dispatched(r, frame, now).1.response == Some(reply(asked, body)));
    lemma_reply_reads_back(asked, body);
    lemma_body_len(asked.command_id, frame);
}

proof fn lemma_body_len(command: u16, frame: Seq<u8>)
    ensures
        reply_body(command, frame).len() <= 24 || reply_body(command, frame).len() == 8 + wanted_len(frame),
{
}

proof fn lemma_reply_reads_back(h: AmsHeaderView, body: Seq<u8>)
    requires
        h.valid(),
    ensures
        reply(h, body).len() == 32 + body.len(),
        AmsHeaderView::read(reply(h, body)) == h.answer(0, (body.len() % 0x1_0000_0000) as u32),
{
    crate::ams::law_header_read_of_bytes(h.answer(0, (body.len() % 0x1_0000_0000) as u32), body);
}

/// Only a write to the service's own port changes the known tasks or gives records.
pub proof fn law_only_own_writes_have_effects(r: AdsRouterView, frame: Seq<u8>, now: Timestamp)
    requires
        AmsHeaderView::read(frame).command_id != ADS_CMD_WRITE || AmsHeaderView::read(frame).target_port != r.ads_port,
    ensures
        dispatched(r, frame, now).0 == r,
        dispatched(r, frame, now).1.logs.len() == 0,
        dispatched(r, frame, now).1.push is None,
        dispatched(r, frame, now).1.traces.len() == 0,
{
}

/// A registered task names the later entries of the second format that its own port sends, and
/// no entry of another port.
pub proof fn law_registration_names_entries(
    tasks: Tasks,
    net_id: Seq<char>,
    port: u16,
    m: RegistrationMessageView,
    e: AdsLogEntryView,
    other: u16,
)
    requires
        e.version == AdsProtocolVersion::V2,
        task_byte(e.task_index) == m.task_index,
        other != port,
    ensures
        ({
            let after = registered(tasks, net_id, port, seq![m]);
            let named = enriched(after, net_id, port, e);
            &&& named.task_name == m.task_name
            &&& named.app_name == m.app_name
            &&& named.project_name == m.project_name
            &&& named.online_change_count == m.online_change_count
            &&& enriched(after, net_id, other, e) == enriched(tasks, net_id, other, e)
        }),
{
    assert(seq![m].drop_last() =~= Seq::empty());
    assert(registered(tasks, net_id, port, seq![m].drop_last()) == tasks);
}

impl AdsRouter {
    /// A router for `ads_port`; `metrics` says whether metrics have an output.
    pub fn new(ads_port: u16, metrics: bool, registry: TaskRegistry) -> (r: Self)
        ensures
            r@ == (AdsRouterView { ads_port, metrics, push: false, trace: false, tasks: registry@ }),
    {
        AdsRouter { ads_port, metrics, push: false, trace: false, registry }
    }

    /// Connects the output of pushed batches.
    pub fn with_push_sender(self) -> (r: Self)
        ensures
            r@ == (AdsRouterView { push: true, ..self@ }),
    {
        AdsRouter { push: true, ..self }
    }

    /// Connects the output of trace events.
    pub fn with_trace_sender(self) -> (r: Self)
        ensures
            r@ == (AdsRouterView { trace: true, ..self@ }),
    {
        AdsRouter { trace: true, ..self }
    }

    pub fn registry(&self) -> (r: &TaskRegistry)
        ensures
            r@ == self@.tasks,
    {
        &self.registry
    }

    fn build_response(header: &AmsHeader, payload: &[u8]) -> (r: Vec<u8>)
        ensures
            r@ == reply(header@, payload@),
    {
        let mut rh = header.make_response(0);
        rh.data_length = (payload.len() as u64 % 0x1_0000_0000) as u32;
        rh.state_flags = ADS_STATE_RESPONSE;
        let mut r = rh.serialize();
        put_slice(&mut r, payload);
        r
    }

    /// The body of the answer to a frame.
    fn build_body(command: u16, frame: &[u8]) -> (p: Vec<u8>)
        ensures
            p@ == reply_body(command, frame@),
    {
        let mut p: Vec<u8> = Vec::new();
        assert(p@ + le32(0) =~= le32(0));
        assert(p@ + le32(ADSERR_DEVICE_SRVNOTSUPP) =~= le32(ADSERR_DEVICE_SRVNOTSUPP));
        if command == ADS_CMD_READ_STATE {
            let state: [u8; 8] = [0, 0, 0, 0, 5, 0, 0, 0];
            put_slice(&mut p, &state);
            assert(p@ =~= seq![0u8, 0, 0, 0, 5, 0, 0, 0]);
        } else if command == ADS_CMD_READ_DEVICE_INFO {
            let version: [u8; 2] = [0, 1];
            let name: [u8; 7] = [116, 99, 45, 111, 116, 101, 108];
            put_u32(&mut p, 0);
            put_slice(&mut p, &version);
            put_u16(&mut p, 1);
            put_slice(&mut p, &name);
            put_zeros(&mut p, 9);
            assert(version@ =~= seq![0u8, 1]);
            assert(name@ =~= seq![116u8, 99, 45, 111, 116, 101, 108]);
        } else if command == ADS_CMD_READ {
            let read_len: u32 = if frame.len() >= 44 {
                get_u32(frame, 40)
            } else {
                0
            };
            put_u32(&mut p, 0);
            put_u32(&mut p, read_len);
            put_zeros(&mut p, read_len as usize);
        } else if command == ADS_CMD_WRITE {
            put_u32(&mut p, 0);
        } else if command == ADS_CMD_READ_WRITE || command == ADS_CMD_ADD_NOTIFICATION {
            put_u32(&mut p, ADSERR_DEVICE_SRVNOTSUPP);
            put_u32(&mut p, 0);
        } else {
            put_u32(&mut p, ADSERR_DEVICE_SRVNOTSUPP);
        }
        p
    }

    /// Registers the tasks that the messages announce.
    pub fn take_registrations(&mut self, net_id: &str, port: u16, messages: Vec<RegistrationMessage>)
        ensures
            final(self)@ == (AdsRouterView {
                tasks: registered(
                    old(self)@.tasks,
                    net_id@,
                    port,
                    messages@.map_values(|m: RegistrationMessage| m@),
                ),
                ..old(self)@
            }),
    {
        let ghost all = messages@.map_values(|m: RegistrationMessage| m@);
        let ghost before = self@;
        assert(all.take(0) =~= Seq::empty());
        for m in it: messages.into_iter()
            invariant
                it.seq() == messages@,
                all == messages@.map_values(|m: RegistrationMessage| m@),
                self@ == (AdsRouterView {
                    tasks: registered(before.tasks, net_id@, port, all.take(it.index() as int)),
                    ..before
                }),
        {
            let ghost n = it.index();
            let ghost view = m@;
            let key = key_of(net_id, port, m.task_index);
            let metadata = TaskMetadata {
                task_name: m.task_name,
                app_name: m.app_name,
                project_name: m.project_name,
                online_change_count: m.online_change_count,
                app_port: 0,
            };
            assert(metadata@ == metadata_of(view));
            self.registry.register(key, metadata);
            assert(all[n as int] == view);
            assert(all.take(n + 1).drop_last() =~= all.take(n as int));
            assert(all.take(n + 1).last() == view);
        }
        assert(all.take(all.len() as int) =~= all);
    }

    /// The record of one entry.
    fn take_entry(&self, net_id: &str, port: u16, e: AdsLogEntry) -> (r: LogEntry)
        ensures
            r@ == log_of(net_id@, port, enriched(self@.tasks, net_id@, port, e@)),
    {
        let mut e = e;
        let ghost before = e@;
        if e.version == AdsProtocolVersion::V2 {
            let key = key_of(net_id, port, index_byte(e.task_index));
            match self.registry.lookup(&key) {
                Some(m) => {
                    e.task_name = m.task_name;
                    e.app_name = m.app_name;
                    e.project_name = m.project_name;
                    e.online_change_count = m.online_change_count;
                },
                None => {},
            }
        }
        assert(e@ == enriched(self@.tasks, net_id@, port, before));
        LogEntry {
            source: net_id.to_string(),
            hostname: host_name(net_id),
            message: e.message,
            logger: e.logger,
            level: e.level,
            plc_timestamp: e.plc_timestamp,
            clock_timestamp: e.clock_timestamp,
            task_index: e.task_index,
            task_name: e.task_name,
            task_cycle_counter: e.task_cycle_counter,
            app_name: e.app_name,
            project_name: e.project_name,
            online_change_count: e.online_change_count,
            arguments: e.arguments,
            context: e.context,
            ams_net_id: net_id.to_string(),
            ams_source_port: port,
            trace_id: e.trace_id,
            span_id: e.span_id,
        }
    }

    /// The records of the entries, in order.
    pub fn take_entries(&self, net_id: &str, port: u16, entries: Vec<AdsLogEntry>) -> (r: Vec<LogEntry>)
        ensures
            log_views(r@) == logs_of(self@.tasks, net_id@, port, entries@.map_values(|e: AdsLogEntry| e@)),
    {
        let ghost all = logs_of(self@.tasks, net_id@, port, entries@.map_values(|e: AdsLogEntry| e@));
        let mut logs: Vec<LogEntry> = Vec::new();
        for e in it: entries.into_iter()
            invariant
                it.seq() == entries@,
                all == logs_of(self@.tasks, net_id@, port, entries@.map_values(|e: AdsLogEntry| e@)),
                log_views(logs@) =~= all.take(it.index() as int),
        {
            let ghost n = it.index();
            let ghost view = e@;
            let ghost before = logs@;
            logs.push(self.take_entry(net_id, port, e));
            assert(all[n as int] == logs@.last()@);
            assert(log_views(logs@) =~= log_views(before).push(logs@.last()@));
            assert(all.take(n + 1) =~= all.take(n as int).push(all[n as int]));
        }
        assert(all.take(all.len() as int) =~= all);
        logs
    }

    /// The record of one metric.
    fn take_metric(&self, net_id: &str, port: u16, e: AdsMetricEntry) -> (r: MetricEntry)
        ensures
            r@ == metric_of(self@.tasks, net_id@, port, e@),
    {
        let key = key_of(net_id, port, index_byte(e.task_index));
        let (task_name, app_name, project_name) = match self.registry.lookup(&key) {
            Some(m) => (m.task_name, m.app_name, m.project_name),
            None => (String::new(), String::new(), String::new()),
        };
        let mut bounds: Vec<MetricValue> = Vec::new();
        let mut i: usize = 0;
        while i < e.histogram_bounds.len()
            invariant
                i <= e.histogram_bounds@.len(),
                bounds@ =~= e.histogram_bounds@.take(i as int).map_values(
                    |x: crate::models::Lreal| MetricValue::Lreal(x),
                ),
            decreases e.histogram_bounds@.len() - i,
        {
            bounds.push(MetricValue::Lreal(e.histogram_bounds[i]));
            i = i + 1;
        }
        assert(e.histogram_bounds@.take(i as int) =~= e.histogram_bounds@);
        let ghost wanted = metric_of(self@.tasks, net_id@, port, e@);
        let r = MetricEntry {
            name: e.name,
            description: e.description,
            unit: e.unit,
            kind: e.kind,
            value: MetricValue::Lreal(e.value),
            timestamp: e.timestamp,
            source: net_id.to_string(),
            hostname: host_name(net_id),
            ams_net_id: net_id.to_string(),
            ams_source_port: port,
            task_index: e.task_index,
            task_name,
            task_cycle_counter: e.task_cycle_counter,
            app_name,
            project_name,
            attributes: e.attributes,
            histogram_bounds: bounds,
            histogram_counts: e.histogram_counts,
            histogram_count: e.histogram_count,
            histogram_sum: MetricValue::Lreal(e.histogram_sum),
            is_monotonic: e.is_monotonic,
        };
        assert(r@.task_name =~= wanted.task_name);
        assert(r@.app_name =~= wanted.app_name);
        assert(r@.project_name =~= wanted.project_name);
        r
    }

    /// The records of the metrics, in order; none where metrics have no output.
    pub fn take_metrics(&self, net_id: &str, port: u16, entries: Vec<AdsMetricEntry>) -> (r: Vec<MetricEntry>)
        ensures
            r@.map_values(|m: MetricEntry| m@) == (if self@.metrics {
                metrics_of(self@.tasks, net_id@, port, entries@.map_values(|e: AdsMetricEntry| e@))
            } else {
                Seq::empty()
            }),
    {
        let mut metrics: Vec<MetricEntry> = Vec::new();
        if !self.metrics {
            assert(metrics@.map_values(|m: MetricEntry| m@) =~= Seq::empty());
            return metrics;
        }
        let ghost all = metrics_of(self@.tasks, net_id@, port, entries@.map_values(|e: AdsMetricEntry| e@));
        for e in it: entries.into_iter()
            invariant
                it.seq() == entries@,
                all == metrics_of(self@.tasks, net_id@, port, entries@.map_values(|e: AdsMetricEntry| e@)),
                metrics@.map_values(|m: MetricEntry| m@) =~= all.take(it.index() as int),
        {
            let ghost n = it.index();
            let ghost before = metrics@;
            metrics.push(self.take_metric(net_id, port, e));
            assert(all[n as int] == metrics@.last()@);
            assert(metrics@.map_values(|m: MetricEntry| m@) =~= before.map_values(|m: MetricEntry| m@).push(
                metrics@.last()@,
            ));
            assert(all.take(n + 1) =~= all.take(n as int).push(all[n as int]));
        }
        assert(all.take(all.len() as int) =~= all);
        metrics
    }

    /// The trace events with the Net ID they came from; none where traces have no output.
    pub fn take_traces(&self, net_id: &str, events: Vec<TraceWireEvent>) -> (r: Vec<(AmsNetId, TraceWireEvent)>)
        ensures
            trace_views(r@) == (if self@.trace { traces_of(net_id@, events@) } else { Seq::empty() }),
    {
        let mut traces: Vec<(AmsNetId, TraceWireEvent)> = Vec::new();
        assert(trace_views(traces@) =~= Seq::empty());
        if !self.trace {
            return traces;
        }
        match AmsNetId::from_str_ref(net_id) {
            Ok(id) => {
                let ghost all = traces_of(net_id@, events@);
                for e in it: events.into_iter()
                    invariant
                        it.seq() == events@,
                        all == events@.map_values(|e: TraceWireEvent| (id@, e)),
                        trace_views(traces@) =~= all.take(it.index() as int),
                {
                    let ghost n = it.index();
                    let ghost before = traces@;
                    traces.push((id, e));
                    assert(trace_views(traces@) =~= trace_views(before).push(all[n as int]));
                    assert(all.take(n + 1) =~= all.take(n as int).push(all[n as int]));
                }
                assert(all.take(all.len() as int) =~= all);
            },
            Err(_) => {},
        }
        traces
    }

    /// Takes in written log data: registrations, log entries and trace events.
    pub fn dispatch_write_sync(&mut self, net_id: &str, port: u16, data: &[u8], now: Timestamp) -> (r: (
        Vec<LogEntry>,
        Vec<(AmsNetId, TraceWireEvent)>,
    ))
        ensures
            (final(self)@, log_views(r.0@), trace_views(r.1@)) == log_write(old(self)@, net_id@, port, data@, now),
    {
        proof {
            reveal(log_write);
        }
        match AdsParser::parse_all_at(data, now) {
            Ok(found) => {
                let ParseResult { entries, registrations, spans: _, metrics: _, trace_events } = found;
                self.take_registrations(net_id, port, registrations);
                let logs = self.take_entries(net_id, port, entries);
                let traces = self.take_traces(net_id, trace_events);
                (logs, traces)
            },
            Err(_) => {
                let logs: Vec<LogEntry> = Vec::new();
                let traces: Vec<(AmsNetId, TraceWireEvent)> = Vec::new();
                assert(log_views(logs@) =~= Seq::empty());
                assert(trace_views(traces@) =~= Seq::empty());
                (logs, traces)
            },
        }
    }

    /// Takes in written log data: registrations, log entries and metrics.
    pub fn dispatch_write(&mut self, net_id: &str, port: u16, data: &[u8], now: Timestamp) -> (r: (
        Vec<LogEntry>,
        Vec<MetricEntry>,
    ))
        ensures
            (final(self)@, log_views(r.0@), r.1@.map_values(|m: MetricEntry| m@)) == (match parse_outcome(data@, now) {
                Err(_) => (old(self)@, Seq::empty(), Seq::empty()),
                Ok(found) => {
                    let tasks = registered(old(self)@.tasks, net_id@, port, found.registrations);
                    (
                        (AdsRouterView { tasks, ..old(self)@ }),
                        logs_of(tasks, net_id@, port, found.entries),
                        if old(self)@.metrics {
                            metrics_of(tasks, net_id@, port, found.metrics)
                        } else {
                            Seq::empty()
                        },
                    )
                },
            }),
    {
        match AdsParser::parse_all_at(data, now) {
            Ok(found) => {
                let ParseResult { entries, registrations, spans: _, metrics, trace_events: _ } = found;
                self.take_registrations(net_id, port, registrations);
                let logs = self.take_entries(net_id, port, entries);
                let metrics = self.take_metrics(net_id, port, metrics);
                (logs, metrics)
            },
            Err(_) => {
                let logs: Vec<LogEntry> = Vec::new();
                let metrics: Vec<MetricEntry> = Vec::new();
                assert(log_views(logs@) =~= Seq::empty());
                assert(metrics@.map_values(|m: MetricEntry| m@) =~= Seq::empty());
                (logs, metrics)
            },
        }
    }

    /// Decides what a frame leads to; `now` stands for times that log data does not set.
    pub fn dispatch_at(&mut self, frame: &[u8], now: Timestamp) -> (r: Result<Dispatched, AdsError>)
        ensures
            match r {
                Ok(d) => frame@.len() >= 32 && (final(self)@, d@) == dispatched(old(self)@, frame@, now),
                Err(e) => {
                    &&& frame@.len() < 32
                    &&& e@ == AdsErrorView::ParseError("AMS frame too short"@)
                    &&& final(self)@ == old(self)@
                },
            },
    {
        if frame.len() < 32 {
            return Err(AdsError::ParseError(String::from_str("AMS frame too short")));
        }
        let header = AmsHeader::parse(frame)?;
        let body = Self::build_body(header.command_id, frame);
        let response = Self::build_response(&header, &body);
        let mut d = Dispatched { response: Some(response), logs: Vec::new(), push: None, traces: Vec::new() };
        assert(log_views(d.logs@) =~= Seq::empty());
        assert(trace_views(d.traces@) =~= Seq::empty());
        if header.command_id != ADS_CMD_WRITE || header.target_port != self.ads_port {
            return Ok(d);
        }
        let payload = vstd::slice::slice_subrange(frame, 32, frame.len());
        assert(payload@ =~= frame@.skip(32));
        match AdsWriteRequest::parse(payload) {
            Ok(wr) => {
                if wr.index_group == IG_PUSH_DIAG {
                    let event = if wr.index_offset == IO_PUSH_BATCH {
                        decode_batch(&wr.data)
                    } else if wr.index_offset == IO_PUSH_METRIC_AGG {
                        decode_metric_aggregate(&wr.data)
                    } else {
                        None
                    };
                    assert(viewed(event) == pushed(wr@)) by {
                        reveal(pushed);
                    }
                    if self.push {
                        match event {
                            Some(e) => {
                                d.push = Some((header.source_net_id, e));
                            },
                            None => {},
                        }
                    }
                } else {
                    let source = header.source_net_id.to_string();
                    let (logs, traces) = self.dispatch_write_sync(&source, header.source_port, &wr.data, now);
                    d.logs = logs;
                    d.traces = traces;
                }
            },
            Err(_) => {},
        }
        Ok(d)
    }

    /// Decides what a frame leads to. The current time stands for times that log data does not
    /// set.
    pub fn dispatch(&mut self, frame: &[u8]) -> (r: Result<Dispatched, AdsError>)
        ensures
            match r {
                Ok(d) => frame@.len() >= 32 && exists|now: Timestamp|
                    (final(self)@, d@) == #[trigger] dispatched(old(self)@, frame@, now),
                Err(e) => {
                    &&& frame@.len() < 32
                    &&& e@ == AdsErrorView::ParseError("AMS frame too short"@)
                    &&& final(self)@ == old(self)@
                },
            },
    {
        let now = utc_now();
        let r = self.dispatch_at(frame, now);
        assert(r matches Ok(d) ==> (self@, d@) == dispatched(old(self)@, frame@, now));
        r
    }
}

} // verus!
