//! What the records of a routed frame hold, and what its answer carries.
use vstd::prelude::*;

use crate::ads_client::{law_read_response_reads_back, AdsReadRequest, ReadResponseView};
use crate::ams::{dotted, law_header_read_of_bytes, AdsWriteRequestView, AmsHeaderView};
use crate::encoding::{lemma_dword_read, lemma_word_read};
use crate::error::AdsErrorView;
use crate::listener::message_handled;
use crate::message_laws::{
    all_added, buffer_bytes, gathered, law_buffers_read_back, law_first_format_reads_back, v1_bytes, v1_read,
    v1_writable, Message, V1Item,
};
use crate::models::{JsonScalarView, LogEntry, LogEntryView, MetricEntry, MetricValue};
use crate::parser::{entry_outcome, parse_outcome, scope_key, Items, ParseResultView, MAX_MESSAGE_SIZE};
use crate::protocol::{
    AdsLogEntry, AdsLogEntryView, AdsMetricEntry, AdsMetricEntryView, AdsProtocolVersion, RegistrationKeyView,
    RegistrationMessageView, TaskMetadataView, TraceWireEvent,
};
use crate::push_laws::{WireAggregate, WireBatch};
use crate::router::{
    dispatched, log_views, log_write, logs_of, metrics_of, pushed, registered, reply, reply_body, traces_of, AdsRouter,
    AdsRouterView, Tasks,
};
use crate::text::dec;
use crate::time::Timestamp;
use crate::wire::{le16, le32, u16_at, u32_at};

verus! {

broadcast use crate::wire::group_wire;

/// `l` holds what the entry `e` says itself.
pub open spec fn keeps(l: LogEntryView, e: AdsLogEntryView) -> bool {
    &&& l.message == e.message
    &&& l.logger == e.logger
    &&& l.level == e.level
    &&& l.plc_timestamp == e.plc_timestamp
    &&& l.clock_timestamp == e.clock_timestamp
    &&& l.task_index == e.task_index
    &&& l.task_cycle_counter == e.task_cycle_counter
    &&& l.arguments == e.arguments
    &&& l.context == e.context
    &&& l.trace_id == e.trace_id
    &&& l.span_id == e.span_id
}

/// `l` is said to come from the PLC with this Net ID and from this port of it.
pub open spec fn comes_from(l: LogEntryView, net_id: Seq<char>, port: u16) -> bool {
    &&& l.source == net_id
    &&& l.hostname == "plc-"@ + net_id
    &&& l.ams_net_id == net_id
    &&& l.ams_source_port == port
}

/// The names in `l` are those of `task`.
pub open spec fn named_after(l: LogEntryView, task: TaskMetadataView) -> bool {
    &&& l.task_name == task.task_name
    &&& l.app_name == task.app_name
    &&& l.project_name == task.project_name
    &&& l.online_change_count == task.online_change_count
}

/// The names in `l` are those that `e` has itself.
pub open spec fn keeps_names(l: LogEntryView, e: AdsLogEntryView) -> bool {
    &&& l.task_name == e.task_name
    &&& l.app_name == e.app_name
    &&& l.project_name == e.project_name
    &&& l.online_change_count == e.online_change_count
}

/// The key of the task with the lowest eight bits of `index`.
pub open spec fn key_for(net_id: Seq<char>, port: u16, index: int) -> RegistrationKeyView {
    RegistrationKeyView { ams_net_id: net_id, ams_source_port: port, task_index: (index % 256) as u8 }
}

/// Each entry gives one record, in order. The record keeps all that its entry says: its message,
/// logger, level, both times, task index, cycle counter, arguments, context and trace. An entry of
/// the second format has the names of its task where that is registered; else the entry's own
/// names stay.
pub proof fn law_records_keep_their_entries(
    tasks: Tasks,
    net_id: Seq<char>,
    port: u16,
    entries: Seq<AdsLogEntryView>,
    i: int,
)
    requires
        0 <= i < entries.len(),
    ensures
        logs_of(tasks, net_id, port, entries).len() == entries.len(),
        ({
            let l = logs_of(tasks, net_id, port, entries)[i];
            let e = entries[i];
            let key = key_for(net_id, port, e.task_index as int);
            &&& keeps(l, e)
            &&& comes_from(l, net_id, port)
            &&& if e.version == AdsProtocolVersion::V2 && tasks.dom().contains(key) {
                named_after(l, tasks[key])
            } else {
                keeps_names(l, e)
            }
        }),
{
}

/// A metric's record keeps all that the metric says, and has the names of its task where that is
/// registered.
pub proof fn law_metric_records_keep_their_metrics(
    tasks: Tasks,
    net_id: Seq<char>,
    port: u16,
    entries: Seq<AdsMetricEntryView>,
    i: int,
)
    requires
        0 <= i < entries.len(),
    ensures
        metrics_of(tasks, net_id, port, entries).len() == entries.len(),
        ({
            let m = metrics_of(tasks, net_id, port, entries)[i];
            let e = entries[i];
            let key = key_for(net_id, port, e.task_index as int);
            &&& m.name == e.name
            &&& m.description == e.description
            &&& m.unit == e.unit
            &&& m.kind == e.kind
            &&& m.value == MetricValue::Lreal(e.value)
            &&& m.timestamp == e.timestamp
            &&& m.source == net_id
            &&& m.hostname == "plc-"@ + net_id
            &&& m.ams_net_id == net_id
            &&& m.ams_source_port == port
            &&& m.task_index == e.task_index
            &&& m.task_cycle_counter == e.task_cycle_counter
            &&& m.attributes == e.attributes
            &&& m.is_monotonic == e.is_monotonic
            &&& m.histogram_count == e.histogram_count
            &&& m.histogram_counts == e.histogram_counts
            &&& m.histogram_sum == MetricValue::Lreal(e.histogram_sum)
            &&& m.histogram_bounds.len() == e.histogram_bounds.len()
            &&& forall|j: int|
                0 <= j < e.histogram_bounds.len() ==> #[trigger] m.histogram_bounds[j] == MetricValue::Lreal(
                    e.histogram_bounds[j],
                )
            &&& if tasks.dom().contains(key) {
                m.task_name == tasks[key].task_name && m.app_name == tasks[key].app_name && m.project_name
                    == tasks[key].project_name
            } else {
                m.task_name.len() == 0 && m.app_name.len() == 0 && m.project_name.len() == 0
            }
        }),
{
}

/// The last registration of a task gives its names; a task that no message registers keeps those
/// it had, or stays unknown.
pub proof fn law_last_registration_counts(
    tasks: Tasks,
    net_id: Seq<char>,
    port: u16,
    messages: Seq<RegistrationMessageView>,
    i: int,
    key: RegistrationKeyView,
)
    ensures
        0 <= i < messages.len() && (forall|j: int|
            i < j < messages.len() ==> (#[trigger] messages[j]).task_index != messages[i].task_index) ==> {
            let own = key_for(net_id, port, messages[i].task_index as int);
            let after = registered(tasks, net_id, port, messages);
            &&& after.dom().contains(own)
            &&& after[own].task_name == messages[i].task_name
            &&& after[own].app_name == messages[i].app_name
            &&& after[own].project_name == messages[i].project_name
            &&& after[own].online_change_count == messages[i].online_change_count
            &&& after[own].app_port == 0
        },
        (forall|j: int|
            0 <= j < messages.len() ==> key != key_for(net_id, port, (#[trigger] messages[j]).task_index as int)) ==> {
            let after = registered(tasks, net_id, port, messages);
            &&& after.dom().contains(key) == tasks.dom().contains(key)
            &&& after.dom().contains(key) ==> after[key] == tasks[key]
        },
    decreases messages.len(),
{
    if messages.len() > 0 {
        let front = messages.drop_last();
        let last = messages[messages.len() - 1];
        assert(messages.last() == last);
        assert(forall|j: int| 0 <= j < front.len() ==> #[trigger] front[j] == messages[j]);
        law_last_registration_counts(tasks, net_id, port, front, i, key);
        if 0 <= i < front.len() && (forall|j: int|
            i < j < messages.len() ==> (#[trigger] messages[j]).task_index != messages[i].task_index) {
            assert(last.task_index != messages[i].task_index);
            assert forall|j: int| i < j < front.len() implies (#[trigger] front[j]).task_index
                != front[i].task_index by {
                assert(front[j] == messages[j]);
            }
        }
        if forall|j: int|
            0 <= j < messages.len() ==> key != key_for(net_id, port, (#[trigger] messages[j]).task_index as int) {
            assert(key != key_for(net_id, port, last.task_index as int));
            assert forall|j: int| 0 <= j < front.len() implies key != key_for(
                net_id,
                port,
                (#[trigger] front[j]).task_index as int,
            ) by {
                assert(front[j] == messages[j]);
            }
        }
    }
}

// Written frames.

/// The log entries among the messages.
pub open spec fn log_messages(all: Seq<Message>) -> Seq<Message>
    decreases all.len(),
{
    if all.len() == 0 {
        Seq::empty()
    } else {
        match all[0] {
            Message::First(_, _) | Message::Second(_) => seq![all[0]] + log_messages(all.skip(1)),
            _ => log_messages(all.skip(1)),
        }
    }
}

/// The registrations among the messages.
pub open spec fn registration_messages(all: Seq<Message>) -> Seq<RegistrationMessageView>
    decreases all.len(),
{
    if all.len() == 0 {
        Seq::empty()
    } else {
        match all[0] {
            Message::Registration(r) => seq![r] + registration_messages(all.skip(1)),
            _ => registration_messages(all.skip(1)),
        }
    }
}

/// `l` records the message `m`: every field of the message, its arguments and its context. The
/// names of an entry of the first format are its own; those of one of the second format are those
/// of its task among `tasks`, or empty.
pub open spec fn records(l: LogEntryView, m: Message, tasks: Tasks, net_id: Seq<char>, port: u16) -> bool {
    &&& comes_from(l, net_id, port)
    &&& match m {
        Message::First(e, items) => {
            &&& l.message == e.message
            &&& l.logger == e.logger
            &&& l.level == e.level
            &&& l.plc_timestamp == e.plc_timestamp
            &&& l.clock_timestamp == e.clock_timestamp
            &&& l.task_index == e.task_index
            &&& l.task_cycle_counter == e.task_cycle_counter
            &&& l.arguments == v1_read(e, items).arguments
            &&& l.context == v1_read(e, items).context
            &&& keeps_names(l, e)
        },
        Message::Second(e) => {
            let key = key_for(net_id, port, e.task_index as int);
            &&& l.message == e.message
            &&& l.logger == e.logger
            &&& l.level == e.level
            &&& l.plc_timestamp == e.plc_timestamp
            &&& l.clock_timestamp == e.clock_timestamp
            &&& l.task_index == e.task_index
            &&& l.task_cycle_counter == e.cycle
            &&& l.arguments == e.read().arguments
            &&& l.context == e.read().context
            &&& if tasks.dom().contains(key) {
                named_after(l, tasks[key])
            } else {
                l.task_name.len() == 0 && l.app_name.len() == 0 && l.project_name.len() == 0 && l.online_change_count
                    == 0
            }
        },
        _ => false,
    }
}

/// The entry that a log message is read as.
pub open spec fn entry_read(m: Message) -> AdsLogEntryView {
    match m {
        Message::First(e, items) => v1_read(e, items),
        Message::Second(e) => e.read(),
        _ => arbitrary(),
    }
}

proof fn lemma_gathered(all: Seq<Message>, found: ParseResultView)
    ensures
        gathered(all, found).entries == found.entries + log_messages(all).map_values(|m: Message| entry_read(m)),
        gathered(all, found).registrations == found.registrations + registration_messages(all),
        gathered(all, found).trace_events == found.trace_events,
    decreases all.len(),
{
    let read = |m: Message| entry_read(m);
    let m = log_messages(all).map_values(read);
    if all.len() == 0 {
        assert(found.entries + m =~= found.entries);
        assert(found.registrations + registration_messages(all) =~= found.registrations);
    } else {
        let next = all[0].added(found);
        let rest = all.skip(1);
        lemma_gathered(rest, next);
        let n = log_messages(rest).map_values(read);
        match all[0] {
            Message::First(_, _) | Message::Second(_) => {
                assert(m =~= seq![entry_read(all[0])] + n);
                assert(next.entries + n =~= found.entries + m);
            },
            Message::Registration(r) => {
                assert(next.registrations + registration_messages(rest) =~= found.registrations
                    + registration_messages(all));
            },
            _ => {},
        }
    }
}

proof fn lemma_only_logs(all: Seq<Message>, i: int)
    requires
        0 <= i < log_messages(all).len(),
    ensures
        log_messages(all)[i] is First || log_messages(all)[i] is Second,
    decreases all.len(),
{
    if all.len() > 0 {
        match all[0] {
            Message::First(_, _) | Message::Second(_) => {
                if i > 0 {
                    lemma_only_logs(all.skip(1), i - 1);
                }
            },
            _ => lemma_only_logs(all.skip(1), i),
        }
    }
}

/// A frame that carries a write request.
pub open spec fn write_frame(h: AmsHeaderView, w: AdsWriteRequestView, after: Seq<u8>) -> Seq<u8> {
    h.bytes() + (w.bytes() + after)
}

/// `h` is the header of a write to the port of the service.
pub open spec fn own_write(r: AdsRouterView, h: AmsHeaderView) -> bool {
    h.valid() && h.command_id == 3 && h.target_port == r.ads_port
}

proof fn lemma_write_frame(h: AmsHeaderView, w: AdsWriteRequestView, after: Seq<u8>)
    requires
        h.valid(),
        w.data.len() <= u32::MAX,
    ensures
        AmsHeaderView::read(write_frame(h, w, after)) == h,
        AdsWriteRequestView::read(write_frame(h, w, after).skip(32)) == Ok::<AdsWriteRequestView, AdsErrorView>(w),
{
    let rest = w.bytes() + after;
    law_header_read_of_bytes(h, rest);
    assert(h.bytes().len() == 32);
    assert(write_frame(h, w, after).skip(32) =~= rest);
    crate::ams::law_write_request_read_of_bytes(w, after);
}

proof fn lemma_log_write(
    r: AdsRouterView,
    net_id: Seq<char>,
    port: u16,
    all: Seq<Message>,
    padding: Seq<u8>,
    now: Timestamp,
)
    requires
        forall|i: int| 0 <= i < all.len() ==> (#[trigger] all[i]).writable(),
        padding.len() > 0 ==> padding[0] == 0 || padding[0] == 255,
        buffer_bytes(all).len() + padding.len() <= MAX_MESSAGE_SIZE,
    ensures
        ({
            let tasks = registered(r.tasks, net_id, port, registration_messages(all));
            let (after, logs, traces) = log_write(r, net_id, port, buffer_bytes(all) + padding, now);
            &&& after == AdsRouterView { tasks, ..r }
            &&& logs == logs_of(tasks, net_id, port, log_messages(all).map_values(|m: Message| entry_read(m)))
            &&& traces.len() == 0
        }),
{
    reveal(log_write);
    law_buffers_read_back(all, padding, now);
    let nothing = ParseResultView::nothing();
    lemma_gathered(all, nothing);
    let entries = log_messages(all).map_values(|m: Message| entry_read(m));
    assert(nothing.entries + entries =~= entries);
    assert(nothing.registrations + registration_messages(all) =~= registration_messages(all));
}

/// Log messages that are written to the service's port give one record each, in order, and each
/// record holds every field of its message. The tasks that are registered among them are known
/// from then on, and the write is answered with success.
pub proof fn law_written_messages_are_recorded(
    r: AdsRouterView,
    h: AmsHeaderView,
    w: AdsWriteRequestView,
    after: Seq<u8>,
    all: Seq<Message>,
    padding: Seq<u8>,
    now: Timestamp,
)
    requires
        own_write(r, h),
        w.index_group != 0x4D42_4301,
        w.data == buffer_bytes(all) + padding,
        forall|i: int| 0 <= i < all.len() ==> (#[trigger] all[i]).writable(),
        padding.len() > 0 ==> padding[0] == 0 || padding[0] == 255,
        buffer_bytes(all).len() + padding.len() <= MAX_MESSAGE_SIZE,
    ensures
        ({
            let (next, out) = dispatched(r, write_frame(h, w, after), now);
            let net_id = dotted(h.source_net_id);
            let tasks = registered(r.tasks, net_id, h.source_port, registration_messages(all));
            &&& out.logs.len() == log_messages(all).len()
            &&& forall|i: int|
                0 <= i < out.logs.len() ==> records(
                    #[trigger] out.logs[i],
                    log_messages(all)[i],
                    tasks,
                    net_id,
                    h.source_port,
                )
            &&& next == AdsRouterView { tasks, ..r }
            &&& out.push is None
            &&& out.traces.len() == 0
        }),
{
    lemma_write_frame(h, w, after);
    let net_id = dotted(h.source_net_id);
    let port = h.source_port;
    lemma_log_write(r, net_id, port, all, padding, now);
    let tasks = registered(r.tasks, net_id, port, registration_messages(all));
    let entries = log_messages(all).map_values(|m: Message| entry_read(m));
    let logs = logs_of(tasks, net_id, port, entries);
    assert(dispatched(r, write_frame(h, w, after), now).1.logs == logs);
    assert forall|i: int| 0 <= i < logs.len() implies records(
        #[trigger] logs[i],
        log_messages(all)[i],
        tasks,
        net_id,
        port,
    ) by {
        lemma_only_logs(all, i);
        law_records_keep_their_entries(tasks, net_id, port, entries, i);
        assert(entries[i] == entry_read(log_messages(all)[i]));
    }
}

/// A task batch or an aggregate batch that is written to the service's port is handed on as it was
/// written, with its sender's Net ID, where the output is connected; it gives no records and
/// changes nothing.
pub proof fn law_written_batches_are_handed_on(
    r: AdsRouterView,
    h: AmsHeaderView,
    w: AdsWriteRequestView,
    after: Seq<u8>,
    b: WireBatch,
    a: WireAggregate,
    more: Seq<u8>,
    now: Timestamp,
)
    requires
        own_write(r, h),
        w.index_group == 0x4D42_4301,
        w.data.len() <= u32::MAX,
    ensures
        ({
            let (next, out) = dispatched(r, write_frame(h, w, after), now);
            &&& next == r
            &&& out.logs.len() == 0
            &&& out.traces.len() == 0
            &&& !r.push ==> out.push is None
            &&& r.push && w.index_offset == 0 && b.writable() && w.data == b.bytes() + more ==> out.push == Some(
                (h.source_net_id, b.event()),
            )
            &&& r.push && w.index_offset == 2 && a.writable() && w.data == a.bytes() + more ==> out.push == Some(
                (h.source_net_id, a.event()),
            )
            &&& w.index_offset != 0 && w.index_offset != 2 ==> out.push is None
        }),
{
    lemma_write_frame(h, w, after);
    lemma_pushed(w, b, a, more);
}

proof fn lemma_pushed(w: AdsWriteRequestView, b: WireBatch, a: WireAggregate, more: Seq<u8>)
    ensures
        w.index_offset == 0 && b.writable() && w.data == b.bytes() + more ==> pushed(w) == Some(b.event()),
        w.index_offset == 2 && a.writable() && w.data == a.bytes() + more ==> pushed(w) == Some(a.event()),
        w.index_offset != 0 && w.index_offset != 2 ==> pushed(w) is None,
{
    reveal(pushed);
    if b.writable() {
        crate::push_laws::law_task_batch_reads_back(b, more);
    }
    if a.writable() {
        crate::push_laws::law_aggregate_batch_reads_back(a, more);
    }
}

/// Trace events go on in order, each with the Net ID that their text writes; a text that writes
/// none gives none.
pub proof fn law_trace_events_are_handed_on(id: Seq<u8>, events: Seq<TraceWireEvent>, text: Seq<char>, i: int)
    requires
        id.len() == 6,
        0 <= i < events.len(),
    ensures
        traces_of(dotted(id), events).len() == events.len(),
        traces_of(dotted(id), events)[i] == (id, events[i]),
        crate::ams::net_id_of(text) is Err ==> traces_of(text, events).len() == 0,
{
    crate::ams::law_net_id_reads_back(id);
}

// Answers.

/// What stands behind the header of the answer to a frame.
pub open spec fn answer_body(r: AdsRouterView, frame: Seq<u8>, now: Timestamp) -> Seq<u8> {
    match dispatched(r, frame, now).1.response {
        Some(s) => s.skip(32),
        None => Seq::empty(),
    }
}

proof fn lemma_answer_body(r: AdsRouterView, frame: Seq<u8>, now: Timestamp)
    requires
        frame.len() >= 32,
    ensures
        answer_body(r, frame, now) == reply_body(AmsHeaderView::read(frame).command_id, frame),
{
    let h = AmsHeaderView::read(frame);
    let body = reply_body(h.command_id, frame);
    assert(dispatched(r, frame, now).1.response == Some(reply(h, body)));
    let head = h.answer(0, (body.len() % 0x1_0000_0000) as u32).bytes();
    law_header_read_of_bytes(h.answer(0, (body.len() % 0x1_0000_0000) as u32), body);
    assert(head.len() == 32);
    assert(reply(h, body).skip(32) =~= body);
}

/// A read is answered with success and as many zeros as it asked for.
pub proof fn law_reads_are_answered_with_zeros(
    r: AdsRouterView,
    h: AmsHeaderView,
    q: AdsReadRequest,
    after: Seq<u8>,
    now: Timestamp,
)
    requires
        h.valid(),
        h.command_id == 2,
    ensures
        ReadResponseView::read(answer_body(r, h.bytes() + (q.bytes() + after), now)) == Ok::<
            ReadResponseView,
            AdsErrorView,
        >(ReadResponseView { result: 0, data: Seq::new(q.read_length as nat, |i: int| 0u8) }),
{
    let rest = q.bytes() + after;
    let frame = h.bytes() + rest;
    law_header_read_of_bytes(h, rest);
    assert(h.bytes().len() == 32);
    assert(q.bytes().len() == 12);
    assert(frame.subrange(40, 44) =~= le32(q.read_length));
    lemma_dword_read(frame, 40, q.read_length);
    lemma_answer_body(r, frame, now);
    let p = ReadResponseView { result: 0, data: Seq::new(q.read_length as nat, |i: int| 0u8) };
    law_read_response_reads_back(p, Seq::empty());
    assert(p.bytes() + Seq::<u8>::empty() =~= reply_body(2, frame));
}

/// A write is answered with the result zero and nothing else. A request for the state is answered
/// with the result zero, the state "run" (5) and the device state zero.
pub proof fn law_writes_and_states_are_answered_with_success(r: AdsRouterView, h: AmsHeaderView, rest: Seq<u8>, now: Timestamp)
    requires
        h.valid(),
    ensures
        ({
            let b = answer_body(r, h.bytes() + rest, now);
            &&& h.command_id == 3 ==> b.len() == 4 && u32_at(b, 0) == 0
            &&& h.command_id == 4 ==> b.len() == 8 && u32_at(b, 0) == 0 && u16_at(b, 4) == 5 && u16_at(b, 6) == 0
        }),
{
    let frame = h.bytes() + rest;
    law_header_read_of_bytes(h, rest);
    assert(h.bytes().len() == 32);
    lemma_answer_body(r, frame, now);
    let b = answer_body(r, frame, now);
    if h.command_id == 3 {
        assert(b.subrange(0, 4) =~= le32(0));
        lemma_dword_read(b, 0, 0);
    }
}

/// A request for the device is answered with the result zero, the version 0.1.1 and the name
/// `tc-otel`, filled up with zeros to sixteen bytes.
pub proof fn law_the_device_has_a_name(r: AdsRouterView, h: AmsHeaderView, rest: Seq<u8>, now: Timestamp)
    requires
        h.valid(),
        h.command_id == 1,
    ensures
        ({
            let b = answer_body(r, h.bytes() + rest, now);
            let name = vstd::utf8::encode_utf8("tc-otel"@);
            &&& b.len() == 24
            &&& u32_at(b, 0) == 0
            &&& b[4] == 0
            &&& b[5] == 1
            &&& u16_at(b, 6) == 1
            &&& name.len() == 7
            &&& b.subrange(8, 15) == name
            &&& forall|i: int| 15 <= i < 24 ==> #[trigger] b[i] == 0
        }),
{
    let frame = h.bytes() + rest;
    law_header_read_of_bytes(h, rest);
    assert(h.bytes().len() == 32);
    lemma_answer_body(r, frame, now);
    let b = answer_body(r, frame, now);
    assert(b.subrange(0, 4) =~= le32(0));
    assert(b.subrange(6, 8) =~= le16(1));
    lemma_dword_read(b, 0, 0);
    lemma_word_read(b, 6, 1);
    reveal_strlit("tc-otel");
    vstd::utf8::is_ascii_chars_encode_utf8("tc-otel"@);
    assert(b.subrange(8, 15) =~= vstd::utf8::encode_utf8("tc-otel"@));
}

/// Every other command is answered with the error "service not supported".
pub proof fn law_other_commands_are_not_supported(r: AdsRouterView, h: AmsHeaderView, rest: Seq<u8>, now: Timestamp)
    requires
        h.valid(),
        !(1 <= h.command_id <= 4),
    ensures
        ({
            let b = answer_body(r, h.bytes() + rest, now);
            &&& u32_at(b, 0) == 0x701
            &&& h.command_id == 6 || h.command_id == 9 ==> b.len() == 8 && u32_at(b, 4) == 0
            &&& h.command_id != 6 && h.command_id != 9 ==> b.len() == 4
        }),
{
    let frame = h.bytes() + rest;
    law_header_read_of_bytes(h, rest);
    assert(h.bytes().len() == 32);
    lemma_answer_body(r, frame, now);
    let b = answer_body(r, frame, now);
    assert(b.subrange(0, 4) =~= le32(0x701));
    lemma_dword_read(b, 0, 0x701);
    if h.command_id == 6 || h.command_id == 9 {
        assert(b.subrange(4, 8) =~= le32(0));
        lemma_dword_read(b, 4, 0);
    }
}

// The plain listener.

/// An entry that is sent to the plain listener is acknowledged and recorded with every field of
/// its message; its source is the peer.
pub proof fn law_listened_entries_are_recorded(
    e: AdsLogEntryView,
    items: Seq<V1Item>,
    after: Seq<u8>,
    ip: Seq<char>,
    port: u16,
    now: Timestamp,
)
    requires
        v1_writable(e, items),
        v1_bytes(e, items).len() + after.len() <= MAX_MESSAGE_SIZE,
    ensures
        ({
            let s = v1_bytes(e, items) + after;
            message_handled(s, ip, port, now) matches (Some(l), answer) && {
                &&& answer == 1
                &&& l.source == ip
                &&& l.hostname == "plc-"@ + dec(port as nat)
                &&& l.ams_net_id.len() == 0
                &&& l.ams_source_port == 0
                &&& l.message == e.message
                &&& l.logger == e.logger
                &&& l.level == e.level
                &&& l.plc_timestamp == e.plc_timestamp
                &&& l.clock_timestamp == e.clock_timestamp
                &&& l.task_index == e.task_index
                &&& l.task_cycle_counter == e.task_cycle_counter
                &&& keeps_names(l, e)
                &&& l.arguments == v1_read(e, items).arguments
                &&& l.context == v1_read(e, items).context
                &&& l.trace_id == Seq::new(16, |i: int| 0u8)
                &&& l.span_id == Seq::new(8, |i: int| 0u8)
            }
        }),
{
    let own = v1_bytes(e, items);
    law_first_format_reads_back(Seq::empty(), e, items, after, now);
    assert(Seq::<u8>::empty() + own + after =~= own + after);
}

/// A message that cannot be read is refused and gives no record.
pub proof fn law_unreadable_messages_are_refused(s: Seq<u8>, ip: Seq<char>, port: u16, now: Timestamp)
    requires
        entry_outcome(s, now) is Err,
    ensures
        message_handled(s, ip, port, now) == (None::<LogEntryView>, 0u8),
{
}

// Items of the first format.

/// Of the arguments with one index the last is kept, and of the properties with one scope and
/// name; the name of a property is that of its scope and its own.
pub proof fn law_last_items_are_kept(e: AdsLogEntryView, items: Seq<V1Item>, i: int)
    requires
        0 <= i < items.len(),
    ensures
        match items[i] {
            V1Item::Argument { index, value } => (forall|j: int|
                i < j < items.len() && (#[trigger] items[j]) is Argument ==> items[j]->index != index) ==> {
                &&& v1_read(e, items).arguments.dom().contains(index as usize)
                &&& v1_read(e, items).arguments[index as usize] == value
            },
            V1Item::Property { scope, name, value } => {
                let key = "scope_"@ + dec(scope as nat) + "_"@ + name;
                (forall|j: int|
                    i < j < items.len() && (#[trigger] items[j]) is Property ==> scope_key(
                        items[j]->scope,
                        items[j]->name,
                    ) != key) ==> {
                    &&& v1_read(e, items).context.dom().contains(key)
                    &&& v1_read(e, items).context[key] == value
                }
            },
        },
{
    let none = (Map::<usize, JsonScalarView>::empty(), Map::<Seq<char>, JsonScalarView>::empty());
    lemma_last_item(items, i, none);
}

proof fn lemma_last_item(items: Seq<V1Item>, i: int, found: Items)
    requires
        0 <= i < items.len(),
    ensures
        match items[i] {
            V1Item::Argument { index, value } => (forall|j: int|
                i < j < items.len() && (#[trigger] items[j]) is Argument ==> items[j]->index != index) ==> {
                &&& all_added(items, found).0.dom().contains(index as usize)
                &&& all_added(items, found).0[index as usize] == value
            },
            V1Item::Property { scope, name, value } => {
                let key = scope_key(scope, name);
                (forall|j: int|
                    i < j < items.len() && (#[trigger] items[j]) is Property ==> scope_key(
                        items[j]->scope,
                        items[j]->name,
                    ) != key) ==> {
                    &&& all_added(items, found).1.dom().contains(key)
                    &&& all_added(items, found).1[key] == value
                }
            },
        },
    decreases items.len(),
{
    let rest = items.skip(1);
    let next = items[0].added(found);
    assert(forall|j: int| 0 <= j < rest.len() ==> #[trigger] rest[j] == items[j + 1]);
    if i > 0 {
        lemma_last_item(rest, i - 1, next);
        assert(forall|j: int| i < j < items.len() ==> #[trigger] items[j] == rest[j - 1]);
        assert(rest[i - 1] == items[i]);
        match items[i] {
            V1Item::Argument { index, value } => {
                if forall|j: int|
                    i < j < items.len() && (#[trigger] items[j]) is Argument ==> items[j]->index != index {
                    assert forall|j: int|
                        i - 1 < j < rest.len() && (#[trigger] rest[j]) is Argument implies rest[j]->index
                        != index by {
                        assert(rest[j] == items[j + 1]);
                    }
                }
            },
            V1Item::Property { scope, name, value } => {
                let key = scope_key(scope, name);
                if forall|j: int|
                    i < j < items.len() && (#[trigger] items[j]) is Property ==> scope_key(
                        items[j]->scope,
                        items[j]->name,
                    ) != key {
                    assert forall|j: int|
                        i - 1 < j < rest.len() && (#[trigger] rest[j]) is Property implies scope_key(
                        rest[j]->scope,
                        rest[j]->name,
                    ) != key by {
                        assert(rest[j] == items[j + 1]);
                    }
                }
            },
        }
    } else {
        match items[0] {
            V1Item::Argument { index, value } => {
                if forall|j: int|
                    0 < j < items.len() && (#[trigger] items[j]) is Argument ==> items[j]->index != index {
                    assert forall|j: int| 0 <= j < rest.len() && (#[trigger] rest[j]) is Argument implies rest[j]->index
                        != index by {
                        assert(rest[j] == items[j + 1]);
                    }
                    lemma_argument_stays(rest, next, index);
                }
            },
            V1Item::Property { scope, name, value } => {
                let key = scope_key(scope, name);
                if forall|j: int|
                    0 < j < items.len() && (#[trigger] items[j]) is Property ==> scope_key(
                        items[j]->scope,
                        items[j]->name,
                    ) != key {
                    assert forall|j: int| 0 <= j < rest.len() && (#[trigger] rest[j]) is Property implies scope_key(
                        rest[j]->scope,
                        rest[j]->name,
                    ) != key by {
                        assert(rest[j] == items[j + 1]);
                    }
                    lemma_property_stays(rest, next, key);
                }
            },
        }
    }
}

proof fn lemma_argument_stays(items: Seq<V1Item>, found: Items, index: u8)
    requires
        found.0.dom().contains(index as usize),
        forall|j: int| 0 <= j < items.len() && (#[trigger] items[j]) is Argument ==> items[j]->index != index,
    ensures
        all_added(items, found).0.dom().contains(index as usize),
        all_added(items, found).0[index as usize] == found.0[index as usize],
    decreases items.len(),
{
    if items.len() > 0 {
        let rest = items.skip(1);
        assert forall|j: int| 0 <= j < rest.len() && (#[trigger] rest[j]) is Argument implies rest[j]->index
            != index by {
            assert(rest[j] == items[j + 1]);
        }
        lemma_argument_stays(rest, items[0].added(found), index);
    }
}

proof fn lemma_property_stays(items: Seq<V1Item>, found: Items, key: Seq<char>)
    requires
        found.1.dom().contains(key),
        forall|j: int|
            0 <= j < items.len() && (#[trigger] items[j]) is Property ==> scope_key(
                items[j]->scope,
                items[j]->name,
            ) != key,
    ensures
        all_added(items, found).1.dom().contains(key),
        all_added(items, found).1[key] == found.1[key],
    decreases items.len(),
{
    if items.len() > 0 {
        let rest = items.skip(1);
        assert forall|j: int| 0 <= j < rest.len() && (#[trigger] rest[j]) is Property implies scope_key(
            rest[j]->scope,
            rest[j]->name,
        ) != key by {
            assert(rest[j] == items[j + 1]);
        }
        lemma_property_stays(rest, items[0].added(found), key);
    }
}

/// Nothing can be parsed of `data`.
#[verifier::opaque]
pub open spec fn unparsable(data: Seq<u8>, now: Timestamp) -> bool {
    parse_outcome(data, now) is Err
}

proof fn lemma_unparsable(r: AdsRouterView, net_id: Seq<char>, port: u16, data: Seq<u8>, now: Timestamp)
    requires
        unparsable(data, now),
    ensures
        ({
            let (after, logs, traces) = log_write(r, net_id, port, data, now);
            after == r && logs.len() == 0 && traces.len() == 0
        }),
{
    reveal(unparsable);
    reveal(log_write);
}

/// A write that cannot be read, or whose data cannot be parsed, gives no records and changes
/// nothing; it is answered all the same.
pub proof fn law_unreadable_writes_have_no_effect(r: AdsRouterView, h: AmsHeaderView, rest: Seq<u8>, now: Timestamp)
    requires
        own_write(r, h),
        match AdsWriteRequestView::read(rest) {
            Err(_) => true,
            Ok(w) => if w.index_group == 0x4D42_4301 {
                pushed(w) is None
            } else {
                unparsable(w.data, now)
            },
        },
    ensures
        ({
            let (next, out) = dispatched(r, h.bytes() + rest, now);
            &&& next == r
            &&& out.logs.len() == 0
            &&& out.push is None
            &&& out.traces.len() == 0
            &&& out.response is Some
        }),
{
    law_header_read_of_bytes(h, rest);
    assert(h.bytes().len() == 32);
    assert((h.bytes() + rest).skip(32) =~= rest);
    if let Ok(w) = AdsWriteRequestView::read(rest) {
        if w.index_group != 0x4D42_4301 {
            lemma_unparsable(r, dotted(h.source_net_id), h.source_port, w.data, now);
        }
    }
}

/// A read whose request is cut short is answered with success and no data.
pub proof fn law_cut_reads_are_answered_with_nothing(r: AdsRouterView, h: AmsHeaderView, rest: Seq<u8>, now: Timestamp)
    requires
        h.valid(),
        h.command_id == 2,
        rest.len() < 12,
    ensures
        ReadResponseView::read(answer_body(r, h.bytes() + rest, now)) == Ok::<ReadResponseView, AdsErrorView>(
            ReadResponseView { result: 0, data: Seq::empty() },
        ),
{
    let frame = h.bytes() + rest;
    law_header_read_of_bytes(h, rest);
    assert(h.bytes().len() == 32);
    lemma_answer_body(r, frame, now);
    let p = ReadResponseView { result: 0, data: Seq::empty() };
    law_read_response_reads_back(p, Seq::empty());
    assert(p.bytes() + Seq::<u8>::empty() =~= reply_body(2, frame));
}

// What the router hands over.

/// Each entry that is taken gives one record, in order, with the entry's own texts, level, times,
/// numbers, arguments, context and trace.
pub proof fn law_taken_entries_keep_their_fields(
    r: &AdsRouter,
    net_id: &str,
    port: u16,
    entries: Vec<AdsLogEntry>,
    logs: Vec<LogEntry>,
    i: int,
)
    requires
        call_ensures(AdsRouter::take_entries, (r, net_id, port, entries), logs),
        0 <= i < entries@.len(),
    ensures
        logs@.len() == entries@.len(),
        ({
            let l = logs@[i];
            let e = entries@[i];
            &&& l.message@ == e.message@
            &&& l.logger@ == e.logger@
            &&& l.level == e.level
            &&& l.plc_timestamp == e.plc_timestamp
            &&& l.clock_timestamp == e.clock_timestamp
            &&& l.task_index == e.task_index
            &&& l.task_cycle_counter == e.task_cycle_counter
            &&& l.arguments@ == e.arguments@
            &&& l.context@ == e.context@
            &&& l.trace_id@ == e.trace_id@
            &&& l.span_id@ == e.span_id@
            &&& l.source@ == net_id@
            &&& l.hostname@ == "plc-"@ + net_id@
            &&& l.ams_net_id@ == net_id@
            &&& l.ams_source_port == port
            &&& e.version != AdsProtocolVersion::V2 ==> {
                &&& l.task_name@ == e.task_name@
                &&& l.app_name@ == e.app_name@
                &&& l.project_name@ == e.project_name@
                &&& l.online_change_count == e.online_change_count
            }
        }),
{
    let views = entries@.map_values(|e: AdsLogEntry| e@);
    law_records_keep_their_entries(r@.tasks, net_id@, port, views, i);
    assert(log_views(logs@).len() == logs@.len());
    assert(log_views(logs@)[i] == logs@[i]@);
    assert(views[i] == entries@[i]@);
}

/// Each metric that is taken gives one record, in order, with the metric's own texts, kind, value,
/// time, attributes and histogram.
pub proof fn law_taken_metrics_keep_their_fields(
    r: &AdsRouter,
    net_id: &str,
    port: u16,
    entries: Vec<AdsMetricEntry>,
    metrics: Vec<MetricEntry>,
    i: int,
)
    requires
        call_ensures(AdsRouter::take_metrics, (r, net_id, port, entries), metrics),
        r@.metrics,
        0 <= i < entries@.len(),
    ensures
        metrics@.len() == entries@.len(),
        ({
            let m = metrics@[i];
            let e = entries@[i];
            &&& m.name@ == e.name@
            &&& m.description@ == e.description@
            &&& m.unit@ == e.unit@
            &&& m.kind == e.kind
            &&& m.value == MetricValue::Lreal(e.value)
            &&& m.timestamp == e.timestamp
            &&& m.is_monotonic == e.is_monotonic
            &&& m.task_index == e.task_index
            &&& m.task_cycle_counter == e.task_cycle_counter
            &&& m.attributes@ == e.attributes@
            &&& m.histogram_count == e.histogram_count
            &&& m.histogram_counts@ == e.histogram_counts@
            &&& m.histogram_sum == MetricValue::Lreal(e.histogram_sum)
            &&& m.histogram_bounds@.len() == e.histogram_bounds@.len()
            &&& m.source@ == net_id@
            &&& m.hostname@ == "plc-"@ + net_id@
            &&& m.ams_net_id@ == net_id@
            &&& m.ams_source_port == port
        }),
{
    let views = entries@.map_values(|e: AdsMetricEntry| e@);
    law_metric_records_keep_their_metrics(r@.tasks, net_id@, port, views, i);
    let shown = metrics@.map_values(|m: MetricEntry| m@);
    assert(shown.len() == metrics@.len());
    assert(shown[i] == metrics@[i]@);
    assert(views[i] == entries@[i]@);
}

} // verus!
