//! Polls PLCs for diagnostics: which frames go out, and what their answers say.
use vstd::prelude::*;
use vstd::utf8::{decode_utf8, valid_utf8};

use crate::ams::{
    AmsHeader, AmsHeaderView, AmsNetId, ADS_CMD_READ, ADS_CMD_READ_DEVICE_INFO, ADS_STATE_REQUEST,
};
use crate::diagnostics::{
    viewed, DiagEvent, DiagEventView, IG_RT_SYSTEM, IG_RT_USAGE, IO_EXCEED_COUNTER, IO_RT_USAGE, IO_TASK_STATS,
    RT_USAGE_LEN, TASK_STATS_LEN,
};
use crate::diagnostics_observer::{fed, DiagnosticsObserver, ObserverView};
use crate::idmap::IdMap;
use crate::keymap::{KeyMap, MapKey};
use crate::text::{chars_of, text_from_utf8, text_of, trim_chars, trimmed_text};
use crate::time::{Duration, Tick};
use crate::topics::{ams_topic, answer_topic, make_ams_topic, make_answer_topic, Outgoing, OutgoingView};
use crate::wire::{find_zero, get_u32, le32, put_u32, u32_at, zero_from};

verus! {

broadcast use crate::wire::group_wire;

/// The AMS port of the realtime subsystem.
pub const DEFAULT_RT_PORT: u16 = 200;

/// The source port of the polls.
pub const POLLER_SOURCE_PORT: u16 = 30001;

/// How long a pushed event suspends the polls of its sender: 10 s.
pub const PUSH_SUSPEND_NANOS: u64 = 10_000_000_000;

/// What is polled of one PLC.
#[derive(Debug)]
pub struct TargetConfig {
    pub net_id: AmsNetId,
    pub poll_interval: Duration,
    pub exceed_counter: bool,
    pub rt_usage: bool,
    pub task_ports: Vec<u16>,
    pub rt_port: u16,
    /// Names known before any is discovered.
    pub task_names: KeyMap<u16, String>,
}

pub struct TargetConfigView {
    pub net_id: Seq<u8>,
    pub poll_interval: Duration,
    pub exceed_counter: bool,
    pub rt_usage: bool,
    pub task_ports: Seq<u16>,
    pub rt_port: u16,
    pub task_names: Map<u16, Seq<char>>,
}

impl View for TargetConfig {
    type V = TargetConfigView;

    open spec fn view(&self) -> TargetConfigView {
        TargetConfigView {
            net_id: self.net_id@,
            poll_interval: self.poll_interval,
            exceed_counter: self.exceed_counter,
            rt_usage: self.rt_usage,
            task_ports: self.task_ports@,
            rt_port: self.rt_port,
            task_names: self.task_names@,
        }
    }
}

impl TargetConfig {
    /// Everything is polled, once a second.
    pub fn with_defaults(net_id: AmsNetId) -> (r: Self)
        ensures
            r@ == (TargetConfigView {
                net_id: net_id@,
                poll_interval: (Duration { secs: 1, nanos: 0 }),
                exceed_counter: true,
                rt_usage: true,
                task_ports: seq![340u16, 350, 351],
                rt_port: DEFAULT_RT_PORT,
                task_names: Map::empty(),
            }),
    {
        let task_ports: Vec<u16> = vec![340, 350, 351];
        assert(task_ports@ =~= seq![340u16, 350, 351]);
        TargetConfig {
            net_id,
            poll_interval: Duration::from_secs(1),
            exceed_counter: true,
            rt_usage: true,
            task_ports,
            rt_port: DEFAULT_RT_PORT,
            task_names: KeyMap::new(),
        }
    }
}

/// The settings of the poller.
#[derive(Debug)]
pub struct PollerConfig {
    pub broker_host: String,
    pub broker_port: u16,
    pub client_id: String,
    pub topic_prefix: String,
    pub local_net_id: AmsNetId,
    pub targets: Vec<TargetConfig>,
}

/// A read that goes out.
#[derive(Debug)]
pub struct PlannedPoll {
    pub target_net_id: AmsNetId,
    pub target_port: u16,
    pub index_group: u32,
    pub index_offset: u32,
    pub read_size: u32,
    pub invoke_id: u32,
    pub frame: Vec<u8>,
}

pub struct PlannedPollView {
    pub target_net_id: Seq<u8>,
    pub target_port: u16,
    pub index_group: u32,
    pub index_offset: u32,
    pub read_size: u32,
    pub invoke_id: u32,
    pub frame: Seq<u8>,
}

impl View for PlannedPoll {
    type V = PlannedPollView;

    open spec fn view(&self) -> PlannedPollView {
        PlannedPollView {
            target_net_id: self.target_net_id@,
            target_port: self.target_port,
            index_group: self.index_group,
            index_offset: self.index_offset,
            read_size: self.read_size,
            invoke_id: self.invoke_id,
            frame: self.frame@,
        }
    }
}

/// The header of a request.
pub open spec fn request_header(
    source_net_id: Seq<u8>,
    source_port: u16,
    target_net_id: Seq<u8>,
    target_port: u16,
    command_id: u16,
    data_length: u32,
    invoke_id: u32,
) -> AmsHeaderView {
    AmsHeaderView {
        target_net_id,
        target_port,
        source_net_id,
        source_port,
        command_id,
        state_flags: ADS_STATE_REQUEST,
        data_length,
        error_code: 0,
        invoke_id,
    }
}

/// The body of a read request.
pub open spec fn read_body(index_group: u32, index_offset: u32, read_length: u32) -> Seq<u8> {
    le32(index_group) + le32(index_offset) + le32(read_length)
}

/// The frame that asks for a device's name.
pub fn build_read_device_info_frame(
    source_net_id: AmsNetId,
    source_port: u16,
    target_net_id: AmsNetId,
    target_port: u16,
    invoke_id: u32,
) -> (r: Vec<u8>)
    ensures
        r@ == request_header(
            source_net_id@,
            source_port,
            target_net_id@,
            target_port,
            ADS_CMD_READ_DEVICE_INFO,
            0,
            invoke_id,
        ).bytes(),
{
    let header = AmsHeader {
        target_net_id,
        target_port,
        source_net_id,
        source_port,
        command_id: ADS_CMD_READ_DEVICE_INFO,
        state_flags: ADS_STATE_REQUEST,
        data_length: 0,
        error_code: 0,
        invoke_id,
    };
    header.serialize()
}

/// The frame of a read request.
pub fn build_read_frame(
    source_net_id: AmsNetId,
    source_port: u16,
    target_net_id: AmsNetId,
    target_port: u16,
    index_group: u32,
    index_offset: u32,
    read_length: u32,
    invoke_id: u32,
) -> (r: Vec<u8>)
    ensures
        r@ == request_header(
            source_net_id@,
            source_port,
            target_net_id@,
            target_port,
            ADS_CMD_READ,
            12,
            invoke_id,
        ).bytes() + read_body(index_group, index_offset, read_length),
{
    let header = AmsHeader {
        target_net_id,
        target_port,
        source_net_id,
        source_port,
        command_id: ADS_CMD_READ,
        state_flags: ADS_STATE_REQUEST,
        data_length: 12,
        error_code: 0,
        invoke_id,
    };
    let mut out = header.serialize();
    put_u32(&mut out, index_group);
    put_u32(&mut out, index_offset);
    put_u32(&mut out, read_length);
    assert(out@ =~= header@.bytes() + read_body(index_group, index_offset, read_length));
    out
}

/// The name in the body of a device-information response.
pub open spec fn device_name(body: Seq<u8>) -> Option<Seq<char>> {
    let field = body.subrange(8, 24);
    let text = field.take(zero_from(field, 0));
    if body.len() >= 24 && u32_at(body, 0) == 0 && valid_utf8(text) && trimmed_text(decode_utf8(text)).len() > 0 {
        Some(trimmed_text(decode_utf8(text)))
    } else {
        None
    }
}

/// Reads the name in the body of a device-information response.
pub fn parse_device_info_name(body: &[u8]) -> (r: Option<String>)
    ensures
        viewed(r) == device_name(body@),
{
    if body.len() < 24 {
        return None;
    }
    if get_u32(body, 0) != 0 {
        return None;
    }
    let field = vstd::slice::slice_subrange(body, 8, 24);
    let end: usize = find_zero(field);
    assert(field@.subrange(0, end as int) =~= field@.take(end as int));
    match text_from_utf8(vstd::slice::slice_subrange(field, 0, end)) {
        Ok(text) => {
            let chars = chars_of(&text);
            let name = trim_chars(&chars);
            if name.len() == 0 {
                None
            } else {
                Some(text_of(name))
            }
        },
        Err(_) => None,
    }
}

/// The lowest of the ports, `other` if there is none.
pub open spec fn lowest(ports: Seq<u16>, other: u16) -> u16
    decreases ports.len(),
{
    if ports.len() == 0 {
        other
    } else if ports.len() == 1 || ports.last() < lowest(ports.drop_last(), other) {
        ports.last()
    } else {
        lowest(ports.drop_last(), other)
    }
}

/// A poll.
pub open spec fn poll(
    target_net_id: Seq<u8>,
    source_net_id: Seq<u8>,
    target_port: u16,
    index_group: u32,
    index_offset: u32,
    read_size: u32,
    invoke_id: u32,
) -> PlannedPollView {
    PlannedPollView {
        target_net_id,
        target_port,
        index_group,
        index_offset,
        read_size,
        invoke_id,
        frame: request_header(
            source_net_id,
            POLLER_SOURCE_PORT,
            target_net_id,
            target_port,
            ADS_CMD_READ,
            12,
            invoke_id,
        ).bytes() + read_body(index_group, index_offset, read_size),
    }
}

/// The invoke id that comes `n` after `first`.
pub open spec fn nth_id(first: u32, n: int) -> u32 {
    ((first + n) % 0x1_0000_0000) as u32
}

/// The polls of the exceed counter and of the usage block.
pub open spec fn system_polls(t: TargetConfigView, source: Seq<u8>, first: u32) -> Seq<PlannedPollView> {
    let a = if t.exceed_counter {
        seq![poll(t.net_id, source, lowest(t.task_ports, t.rt_port), IG_RT_SYSTEM, IO_EXCEED_COUNTER, 4, first)]
    } else {
        Seq::empty()
    };
    let b = if t.rt_usage {
        seq![poll(t.net_id, source, t.rt_port, IG_RT_USAGE, IO_RT_USAGE, 24, nth_id(first, a.len() as int))]
    } else {
        Seq::empty()
    };
    a + b
}

/// All polls of a target: the exceed counter, the usage block, and each task in the order of
/// the ports, with consecutive invoke ids.
pub open spec fn polls_of(t: TargetConfigView, source: Seq<u8>, first: u32) -> Seq<PlannedPollView> {
    let head = system_polls(t, source, first);
    head + Seq::new(
        t.task_ports.len(),
        |i: int| poll(t.net_id, source, t.task_ports[i], IG_RT_SYSTEM, IO_TASK_STATS, 16, nth_id(first, head.len() + i)),
    )
}

/// The polls of a target have consecutive invoke ids.
pub proof fn law_invoke_ids_are_consecutive(t: TargetConfigView, source: Seq<u8>, first: u32, i: int)
    requires
        0 <= i < polls_of(t, source, first).len(),
    ensures
        polls_of(t, source, first)[i].invoke_id == nth_id(first, i),
{
}

/// A target owes one poll for each thing that is switched on and one for each task.
pub proof fn law_poll_count(t: TargetConfigView, source: Seq<u8>, first: u32)
    ensures
        polls_of(t, source, first).len() == (if t.exceed_counter { 1int } else { 0 }) + (if t.rt_usage { 1int } else {
            0
        }) + t.task_ports.len(),
{
}

/// Every poll is a read that the observer follows, from the poller to the target.
pub proof fn law_polls_are_followed(t: TargetConfigView, source: Seq<u8>, first: u32, i: int)
    requires
        0 <= i < polls_of(t, source, first).len(),
        t.net_id.len() == 6,
        source.len() == 6,
    ensures
        ({
            let p = polls_of(t, source, first)[i];
            let h = AmsHeaderView::read(p.frame);
            &&& p.frame.len() == 44
            &&& h.target_net_id == t.net_id
            &&& h.source_net_id == source
            &&& h.target_port == p.target_port
            &&& h.invoke_id == p.invoke_id
            &&& crate::diagnostics::request_of(h, p.frame.skip(32)) matches Some((id, req))
            &&& id == p.invoke_id
            &&& req.index_group == p.index_group
            &&& req.index_offset == p.index_offset
            &&& req.size == p.read_size
            &&& req.target_port == p.target_port
        }),
{
    let p = polls_of(t, source, first)[i];
    assert(crate::diagnostics::known_read(p.index_group, p.index_offset));
    assert(p == poll(t.net_id, source, p.target_port, p.index_group, p.index_offset, p.read_size, p.invoke_id));
    lemma_poll_reads_back(
        t.net_id,
        source,
        p.target_port,
        p.index_group,
        p.index_offset,
        p.read_size,
        p.invoke_id,
    );
}

proof fn lemma_poll_reads_back(target: Seq<u8>, source: Seq<u8>, port: u16, ig: u32, io: u32, size: u32, id: u32)
    requires
        target.len() == 6,
        source.len() == 6,
    ensures
        ({
            let f = poll(target, source, port, ig, io, size, id).frame;
            &&& f.len() == 44
            &&& AmsHeaderView::read(f) == request_header(source, POLLER_SOURCE_PORT, target, port, ADS_CMD_READ, 12, id)
            &&& f.skip(32) == read_body(ig, io, size)
            &&& u32_at(f.skip(32), 0) == ig
            &&& u32_at(f.skip(32), 4) == io
            &&& u32_at(f.skip(32), 8) == size
        }),
{
    let h = request_header(source, POLLER_SOURCE_PORT, target, port, ADS_CMD_READ, 12, id);
    let b = read_body(ig, io, size);
    crate::ams::law_header_read_of_bytes(h, b);
    let f = h.bytes() + b;
    assert(f.skip(32) =~= b);
    crate::wire::law_le32_read(ig);
    crate::wire::law_le32_read(io);
    crate::wire::law_le32_read(size);
    assert(b.subrange(0, 4) =~= le32(ig));
    assert(b.subrange(4, 8) =~= le32(io));
    assert(b.subrange(8, 12) =~= le32(size));
    crate::wire::lemma_window(b, 0, 4, 0);
    crate::wire::lemma_window(b, 4, 8, 0);
    crate::wire::lemma_window(b, 8, 12, 0);
}

fn lowest_port(ports: &[u16], other: u16) -> (r: u16)
    ensures
        r == lowest(ports@, other),
{
    if ports.len() == 0 {
        return other;
    }
    let mut low: u16 = ports[0];
    let mut i: usize = 1;
    assert(ports@.take(1).last() == ports@[0]);
    while i < ports.len()
        invariant
            1 <= i <= ports@.len(),
            low == lowest(ports@.take(i as int), other),
        decreases ports@.len() - i,
    {
        assert(ports@.take(i + 1).drop_last() =~= ports@.take(i as int));
        if ports[i] < low {
            low = ports[i];
        }
        i = i + 1;
    }
    assert(ports@.take(i as int) =~= ports@);
    low
}

fn plan(target: &TargetConfig, source: AmsNetId, port: u16, ig: u32, io: u32, size: u32, invoke_id: u32) -> (r:
    PlannedPoll)
    ensures
        r@ == poll(target@.net_id, source@, port, ig, io, size, invoke_id),
{
    PlannedPoll {
        target_net_id: target.net_id,
        target_port: port,
        index_group: ig,
        index_offset: io,
        read_size: size,
        invoke_id,
        frame: build_read_frame(source, POLLER_SOURCE_PORT, target.net_id, port, ig, io, size, invoke_id),
    }
}

pub open spec fn poll_views(polls: Seq<PlannedPoll>) -> Seq<PlannedPollView> {
    polls.map_values(|p: PlannedPoll| p@)
}

proof fn lemma_next_id(first: u32, n: int)
    requires
        0 <= n,
    ensures
        nth_id(first, n + 1) == (if nth_id(first, n) == u32::MAX { 0 } else { nth_id(first, n) + 1 }),
{
}

/// All polls that the target owes in one tick; the counter moves on by one for each.
pub fn build_polls_for_target(target: &TargetConfig, source_net_id: AmsNetId, invoke_counter: &mut u32) -> (r: Vec<
    PlannedPoll,
>)
    ensures
        poll_views(r@) == polls_of(target@, source_net_id@, *old(invoke_counter)),
        *final(invoke_counter) == nth_id(*old(invoke_counter), r@.len() as int),
{
    let ghost first = *invoke_counter;
    let ghost t = target@;
    let ghost source = source_net_id@;
    let mut polls: Vec<PlannedPoll> = Vec::new();
    assert(poll_views(polls@) =~= Seq::empty());
    if target.exceed_counter {
        let invoke: u32 = *invoke_counter;
        *invoke_counter = invoke.wrapping_add(1);
        let port: u16 = lowest_port(&target.task_ports, target.rt_port);
        polls.push(plan(target, source_net_id, port, IG_RT_SYSTEM, IO_EXCEED_COUNTER, 4, invoke));
        proof {
            lemma_next_id(first, 0);
        }
    }
    assert(*invoke_counter == nth_id(first, polls@.len() as int));
    if target.rt_usage {
        let invoke: u32 = *invoke_counter;
        *invoke_counter = invoke.wrapping_add(1);
        proof {
            lemma_next_id(first, polls@.len() as int);
        }
        polls.push(plan(target, source_net_id, target.rt_port, IG_RT_USAGE, IO_RT_USAGE, RT_USAGE_LEN as u32, invoke));
    }
    let ghost head = system_polls(t, source, first);
    assert(poll_views(polls@) =~= head);
    let mut i: usize = 0;
    while i < target.task_ports.len()
        invariant
            i <= target.task_ports@.len(),
            t == target@,
            source == source_net_id@,
            polls@.len() == head.len() + i,
            *invoke_counter == nth_id(first, polls@.len() as int),
            poll_views(polls@) =~= head + Seq::new(
                i as nat,
                |i: int|
                    poll(
                        t.net_id,
                        source,
                        t.task_ports[i],
                        IG_RT_SYSTEM,
                        IO_TASK_STATS,
                        16,
                        nth_id(first, head.len() + i),
                    ),
            ),
        decreases target.task_ports@.len() - i,
    {
        let invoke: u32 = *invoke_counter;
        *invoke_counter = invoke.wrapping_add(1);
        proof {
            lemma_next_id(first, polls@.len() as int);
        }
        let ghost before = polls@;
        polls.push(
            plan(
                target,
                source_net_id,
                target.task_ports[i],
                IG_RT_SYSTEM,
                IO_TASK_STATS,
                TASK_STATS_LEN as u32,
                invoke,
            ),
        );
        assert(poll_views(polls@) =~= poll_views(before).push(polls@.last()@));
        i = i + 1;
    }
    polls
}

/// A task: the PLC's Net ID and the task's port.
#[derive(Debug, Clone, Copy)]
pub struct TaskAddress {
    pub net_id: AmsNetId,
    pub port: u16,
}

impl View for TaskAddress {
    type V = (Seq<u8>, u16);

    open spec fn view(&self) -> (Seq<u8>, u16) {
        (self.net_id@, self.port)
    }
}

impl MapKey for TaskAddress {
    fn same(&self, other: &Self) -> (b: bool) {
        self.port == other.port && self.net_id.same(&other.net_id)
    }
}

/// The names of tasks.
pub type TaskNameMap = KeyMap<TaskAddress, String>;

/// The poller: its settings, the polls under way, and what it knows of tasks and pushes.
pub struct DiagnosticsPoller {
    config: PollerConfig,
    observer: DiagnosticsObserver,
    invoke_counter: u32,
    task_names: TaskNameMap,
    pending_device_info: IdMap<TaskAddress>,
    push_seen: KeyMap<AmsNetId, Tick>,
}

pub struct PollerView {
    pub topic_prefix: Seq<char>,
    pub local_net_id: Seq<u8>,
    pub targets: Seq<TargetConfigView>,
    pub observer: ObserverView,
    pub invoke_counter: u32,
    pub task_names: Map<(Seq<u8>, u16), Seq<char>>,
    pub pending_device_info: Map<u32, (Seq<u8>, u16)>,
    pub push_seen: Map<Seq<u8>, Tick>,
}

pub open spec fn target_views(targets: Seq<TargetConfig>) -> Seq<TargetConfigView> {
    targets.map_values(|t: TargetConfig| t@)
}

impl View for DiagnosticsPoller {
    type V = PollerView;

    closed spec fn view(&self) -> PollerView {
        PollerView {
            topic_prefix: self.config.topic_prefix@,
            local_net_id: self.config.local_net_id@,
            targets: target_views(self.config.targets@),
            observer: self.observer@,
            invoke_counter: self.invoke_counter,
            task_names: self.task_names@,
            pending_device_info: self.pending_device_info@,
            push_seen: self.push_seen@,
        }
    }
}

/// The names that a target's settings give.
pub open spec fn own_names(t: TargetConfigView) -> Map<(Seq<u8>, u16), Seq<char>> {
    Map::new(
        |k: (Seq<u8>, u16)| k.0 == t.net_id && t.task_names.dom().contains(k.1),
        |k: (Seq<u8>, u16)| t.task_names[k.1],
    )
}

/// The names that the settings of all targets give; a later target goes before an earlier one.
pub open spec fn seeded(targets: Seq<TargetConfigView>) -> Map<(Seq<u8>, u16), Seq<char>>
    decreases targets.len(),
{
    if targets.len() == 0 {
        Map::empty()
    } else {
        seeded(targets.drop_last()).union_prefer_right(own_names(targets.last()))
    }
}

/// The polls are known to the observer before they go out.
pub open spec fn watched(o: ObserverView, polls: Seq<PlannedPollView>, now: Tick) -> ObserverView
    decreases polls.len(),
{
    if polls.len() == 0 {
        o
    } else {
        let frame = polls.last().frame;
        fed(watched(o, polls.drop_last(), now), AmsHeaderView::read(frame), frame.skip(32), now).0
    }
}

/// A push of the PLC came less than 10 s ago.
pub open spec fn suspended(p: PollerView, net_id: Seq<u8>, now: Tick) -> bool {
    p.push_seen.dom().contains(net_id) && now.nanos < p.push_seen[net_id].nanos + PUSH_SUSPEND_NANOS
}

/// The messages of a tick, and the poller after it.
pub open spec fn ticked(p: PollerView, t: TargetConfigView, now: Tick) -> (PollerView, Seq<OutgoingView>) {
    if suspended(p, t.net_id, now) {
        (p, Seq::empty())
    } else {
        let polls = polls_of(t, p.local_net_id, p.invoke_counter);
        (
            PollerView {
                observer: watched(p.observer, polls, now),
                invoke_counter: nth_id(p.invoke_counter, polls.len() as int),
                ..p
            },
            polls.map_values(
                |x: PlannedPollView| OutgoingView { topic: ams_topic(p.topic_prefix, x.target_net_id), frame: x.frame },
            ),
        )
    }
}

/// The requests for the names of the tasks of a target.
pub open spec fn discovery(p: PollerView, t: TargetConfigView) -> Seq<OutgoingView> {
    Seq::new(
        t.task_ports.len(),
        |i: int|
            OutgoingView {
                topic: ams_topic(p.topic_prefix, t.net_id),
                frame: request_header(
                    p.local_net_id,
                    POLLER_SOURCE_PORT,
                    t.net_id,
                    t.task_ports[i],
                    ADS_CMD_READ_DEVICE_INFO,
                    0,
                    nth_id(p.invoke_counter, i),
                ).bytes(),
            },
    )
}

/// The requests for names that wait, after `n` of a target's have gone out.
pub open spec fn asked_names(p: PollerView, t: TargetConfigView, n: nat) -> Map<u32, (Seq<u8>, u16)>
    decreases n,
{
    if n == 0 {
        p.pending_device_info
    } else {
        asked_names(p, t, (n - 1) as nat).insert(nth_id(p.invoke_counter, n - 1), (t.net_id, t.task_ports[n - 1]))
    }
}

/// What a frame from the broker gives, and the poller after it.
pub open spec fn answered(p: PollerView, s: Seq<u8>, now: Tick) -> (PollerView, Option<(Seq<u8>, DiagEventView)>) {
    let h = AmsHeaderView::read(s);
    if s.len() < 32 || h.target_net_id != p.local_net_id {
        (p, None)
    } else if h.command_id == ADS_CMD_READ_DEVICE_INFO {
        if !p.pending_device_info.dom().contains(h.invoke_id) {
            (p, None)
        } else {
            let rest = p.pending_device_info.remove(h.invoke_id);
            match device_name(s.skip(32)) {
                Some(name) => (
                    PollerView {
                        pending_device_info: rest,
                        task_names: p.task_names.insert(p.pending_device_info[h.invoke_id], name),
                        ..p
                    },
                    None,
                ),
                None => (PollerView { pending_device_info: rest, ..p }, None),
            }
        }
    } else {
        let (observer, event) = fed(p.observer, h, s.skip(32), now);
        (
            PollerView { observer, ..p },
            match event {
                Some(e) => Some((h.source_net_id, e)),
                None => None,
            },
        )
    }
}

/// A recent push of a PLC stops the polls of that PLC, and only of it; after 10 s they go on.
pub proof fn law_push_suspends_polls(p: PollerView, t: TargetConfigView, pushed: Tick, now: Tick)
    requires
        pushed.nanos <= now.nanos,
    ensures
        ({
            let q = PollerView { push_seen: p.push_seen.insert(t.net_id, pushed), ..p };
            &&& now.nanos - pushed.nanos < PUSH_SUSPEND_NANOS ==> ticked(q, t, now) == (q, Seq::<OutgoingView>::empty())
            &&& now.nanos - pushed.nanos >= PUSH_SUSPEND_NANOS ==> ticked(q, t, now).1.len() == polls_of(
                t,
                p.local_net_id,
                p.invoke_counter,
            ).len()
            &&& forall|other: Seq<u8>| other != t.net_id ==> suspended(q, other, now) == suspended(p, other, now)
        }),
{
}

impl DiagnosticsPoller {
    pub fn new(config: PollerConfig, now: Tick) -> (r: Self)
        ensures
            r@ == (PollerView {
                topic_prefix: config.topic_prefix@,
                local_net_id: config.local_net_id@,
                targets: target_views(config.targets@),
                observer: (ObserverView { pending: Map::empty(), last_gc: now }),
                invoke_counter: 1,
                task_names: seeded(target_views(config.targets@)),
                pending_device_info: Map::empty(),
                push_seen: Map::empty(),
            }),
    {
        let task_names = Self::seed(&config.targets);
        DiagnosticsPoller {
            config,
            observer: DiagnosticsObserver::new(now),
            invoke_counter: 1,
            task_names,
            pending_device_info: IdMap::new(),
            push_seen: KeyMap::new(),
        }
    }

    fn seed(targets: &Vec<TargetConfig>) -> (names: TaskNameMap)
        ensures
            names@ == seeded(target_views(targets@)),
    {
        let ghost all = target_views(targets@);
        let mut names: TaskNameMap = KeyMap::new();
        let mut i: usize = 0;
        assert(all.take(0) =~= Seq::empty());
        while i < targets.len()
            invariant
                i <= targets@.len(),
                all == target_views(targets@),
                names@ == seeded(all.take(i as int)),
            decreases targets@.len() - i,
        {
            let target = &targets[i];
            let ghost t = target@;
            let ghost before = names@;
            let ghost pairs = target.task_names.pairs();
            let n: usize = target.task_names.len();
            let mut k: usize = 0;
            assert(names@ =~= before.union_prefer_right(some_names(t, pairs, 0)));
            while k < n
                invariant
                    k <= n,
                    n == pairs.len(),
                    pairs == target.task_names.pairs(),
                    crate::keymap::keys_of(pairs).no_duplicates(),
                    t == target@,
                    names@ == before.union_prefer_right(some_names(t, pairs, k as int)),
                decreases n - k,
            {
                let (port, name) = target.task_names.entry_at(k);
                let ghost entry = pairs[k as int];
                proof {
                    lemma_some_names(t, pairs, k as int);
                }
                names.insert(TaskAddress { net_id: target.net_id, port: *port }, name.clone());
                assert(names@ =~= before.union_prefer_right(some_names(t, pairs, k + 1)));
                k = k + 1;
            }
            proof {
                lemma_all_names(t, pairs);
                assert(all.take(i + 1).drop_last() =~= all.take(i as int));
                assert(all.take(i + 1).last() == t);
            }
            i = i + 1;
        }
        assert(all.take(i as int) =~= all);
        names
    }

    pub fn task_names(&self) -> (r: &TaskNameMap)
        ensures
            r@ == self@.task_names,
    {
        &self.task_names
    }

    /// When each PLC last pushed.
    pub fn push_seen(&self) -> (r: &KeyMap<AmsNetId, Tick>)
        ensures
            r@ == self@.push_seen,
    {
        &self.push_seen
    }

    /// A PLC pushed at `now`.
    pub fn record_push(&mut self, net_id: AmsNetId, now: Tick)
        ensures
            final(self)@ == (PollerView { push_seen: old(self)@.push_seen.insert(net_id@, now), ..old(self)@ }),
    {
        self.push_seen.insert(net_id, now);
    }

    /// The topic on which answers come.
    pub fn response_topic(&self) -> (r: String)
        ensures
            r@ == answer_topic(self@.topic_prefix, self@.local_net_id),
    {
        make_answer_topic(&self.config.topic_prefix, &self.config.local_net_id)
    }

    pub fn target_count(&self) -> (r: usize)
        ensures
            r == self@.targets.len(),
    {
        self.config.targets.len()
    }

    /// The period of a target.
    pub fn poll_interval(&self, i: usize) -> (r: Duration)
        requires
            i < self@.targets.len(),
        ensures
            r == self@.targets[i as int].poll_interval,
    {
        self.config.targets[i].poll_interval
    }

    /// One tick of a target: what goes out.
    pub fn tick(&mut self, i: usize, now: Tick) -> (r: Vec<Outgoing>)
        requires
            i < old(self)@.targets.len(),
        ensures
            (final(self)@, r@.map_values(|m: Outgoing| m@)) == ticked(old(self)@, old(self)@.targets[i as int], now),
    {
        let ghost before = self@;
        let ghost t = self@.targets[i as int];
        let mut out: Vec<Outgoing> = Vec::new();
        assert(out@.map_values(|m: Outgoing| m@) =~= Seq::empty());
        match self.push_seen.get(&self.config.targets[i].net_id) {
            Some(last_push) => {
                if now.since(*last_push) < PUSH_SUSPEND_NANOS {
                    return out;
                }
            },
            None => {},
        }
        let polls = build_polls_for_target(
            &self.config.targets[i],
            self.config.local_net_id,
            &mut self.invoke_counter,
        );
        let ghost views = poll_views(polls@);
        let ghost sent = views.map_values(
            |x: PlannedPollView|
                OutgoingView { topic: ams_topic(before.topic_prefix, x.target_net_id), frame: x.frame },
        );
        assert(views.take(0) =~= Seq::empty());
        let ghost counter = self.invoke_counter;
        for p in it: polls.into_iter()
            invariant
                it.seq() == polls@,
                views == poll_views(polls@),
                views == polls_of(t, before.local_net_id, before.invoke_counter),
                t.net_id.len() == 6,
                sent == views.map_values(
                    |x: PlannedPollView|
                        OutgoingView { topic: ams_topic(before.topic_prefix, x.target_net_id), frame: x.frame },
                ),
                before.local_net_id.len() == 6,
                self@ == (PollerView {
                    observer: watched(before.observer, views.take(it.index() as int), now),
                    invoke_counter: counter,
                    ..before
                }),
                out@.map_values(|m: Outgoing| m@) =~= sent.take(it.index() as int),
        {
            let ghost n = it.index() as int;
            assert(views[n] == p@);
            proof {
                law_polls_are_followed(t, before.local_net_id, before.invoke_counter, n);
            }
            match AmsHeader::parse(&p.frame) {
                Ok(header) => {
                    let payload = vstd::slice::slice_subrange(&p.frame, 32, p.frame.len());
                    assert(payload@ =~= p.frame@.skip(32));
                    let _ = self.observer.feed(&header, payload, now);
                },
                Err(_) => {
                    assert(false);
                },
            }
            let topic = make_ams_topic(&self.config.topic_prefix, &p.target_net_id);
            let ghost sent_before = out@;
            out.push(Outgoing { topic, frame: p.frame });
            proof {
                assert(views.take(n + 1).drop_last() =~= views.take(n));
                assert(views.take(n + 1).last() == views[n]);
                assert(out@.last()@ == sent[n]);
                assert(out@.map_values(|m: Outgoing| m@) =~= sent_before.map_values(|m: Outgoing| m@).push(sent[n]));
                assert(sent.take(n + 1) =~= sent.take(n).push(sent[n]));
            }
        }
        assert(views.take(views.len() as int) =~= views);
        assert(sent.take(sent.len() as int) =~= sent);
        out
    }

    /// The requests for the names of the tasks of a target.
    pub fn discover_task_names(&mut self, i: usize) -> (r: Vec<Outgoing>)
        requires
            i < old(self)@.targets.len(),
        ensures
            r@.map_values(|m: Outgoing| m@) == discovery(old(self)@, old(self)@.targets[i as int]),
            final(self)@ == (PollerView {
                invoke_counter: nth_id(old(self)@.invoke_counter, r@.len() as int),
                pending_device_info: asked_names(
                    old(self)@,
                    old(self)@.targets[i as int],
                    old(self)@.targets[i as int].task_ports.len(),
                ),
                ..old(self)@
            }),
    {
        let ghost before = self@;
        let ghost t = self@.targets[i as int];
        let ghost all = discovery(before, t);
        let mut out: Vec<Outgoing> = Vec::new();
        let mut k: usize = 0;
        while k < self.config.targets[i].task_ports.len()
            invariant
                i < self.config.targets@.len(),
                self@.targets == before.targets,
                t == before.targets[i as int],
                k <= t.task_ports.len(),
                all == discovery(before, t),
                out@.len() == k,
                out@.map_values(|m: Outgoing| m@) =~= all.take(k as int),
                self@ == (PollerView {
                    invoke_counter: nth_id(before.invoke_counter, k as int),
                    pending_device_info: asked_names(before, t, k as nat),
                    ..before
                }),
            decreases t.task_ports.len() - k,
        {
            let net_id = self.config.targets[i].net_id;
            let port: u16 = self.config.targets[i].task_ports[k];
            let invoke: u32 = self.invoke_counter;
            self.invoke_counter = invoke.wrapping_add(1);
            proof {
                lemma_next_id(before.invoke_counter, k as int);
            }
            self.pending_device_info.insert(invoke, TaskAddress { net_id, port });
            let frame = build_read_device_info_frame(
                self.config.local_net_id,
                POLLER_SOURCE_PORT,
                net_id,
                port,
                invoke,
            );
            let topic = make_ams_topic(&self.config.topic_prefix, &net_id);
            let ghost sent = out@;
            out.push(Outgoing { topic, frame });
            proof {
                assert(out@.last()@ == all[k as int]);
                assert(out@.map_values(|m: Outgoing| m@) =~= sent.map_values(|m: Outgoing| m@).push(all[k as int]));
                assert(all.take(k + 1) =~= all.take(k as int).push(all[k as int]));
            }
            k = k + 1;
        }
        assert(all.take(k as int) =~= all);
        out
    }

    /// Takes in a frame from the broker.
    pub fn on_response(&mut self, payload: &[u8], now: Tick) -> (r: Option<(AmsNetId, DiagEvent)>)
        ensures
            (final(self)@, match r {
                Some((id, e)) => Some((id@, e@)),
                None => None,
            }) == answered(old(self)@, payload@, now),
    {
        let header = match AmsHeader::parse(payload) {
            Ok(h) => h,
            Err(_) => {
                return None;
            },
        };
        if !header.target_net_id.same(&self.config.local_net_id) {
            return None;
        }
        let body = vstd::slice::slice_subrange(payload, 32, payload.len());
        assert(body@ =~= payload@.skip(32));
        if header.command_id == ADS_CMD_READ_DEVICE_INFO {
            match self.pending_device_info.remove(&header.invoke_id) {
                Some(address) => {
                    match parse_device_info_name(body) {
                        Some(name) => {
                            self.task_names.insert(address, name);
                        },
                        None => {},
                    }
                },
                None => {
                    assert(self@.pending_device_info =~= old(self)@.pending_device_info);
                },
            }
            return None;
        }
        match self.observer.feed(&header, body, now) {
            Some(event) => Some((header.source_net_id, event)),
            None => None,
        }
    }
}

/// The names that the first `k` of the pairs give.
spec fn some_names(t: TargetConfigView, pairs: Seq<(u16, Seq<char>)>, k: int) -> Map<(Seq<u8>, u16), Seq<char>> {
    own_names(TargetConfigView { task_names: crate::keymap::map_of(pairs.take(k)), ..t })
}

proof fn lemma_some_names(t: TargetConfigView, pairs: Seq<(u16, Seq<char>)>, k: int)
    requires
        0 <= k < pairs.len(),
        crate::keymap::keys_of(pairs).no_duplicates(),
    ensures
        some_names(t, pairs, k + 1) == some_names(t, pairs, k).insert((t.net_id, pairs[k].0), pairs[k].1),
{
    let a = pairs.take(k);
    let b = pairs.take(k + 1);
    assert(b =~= a.push(pairs[k]));
    assert(crate::keymap::keys_of(a) =~= crate::keymap::keys_of(pairs).take(k));
    assert(!crate::keymap::keys_of(a).contains(pairs[k].0)) by {
        if crate::keymap::keys_of(a).contains(pairs[k].0) {
            let j = choose|j: int|
                0 <= j < crate::keymap::keys_of(a).len() && crate::keymap::keys_of(a)[j] == pairs[k].0;
            assert(crate::keymap::keys_of(pairs)[j] == crate::keymap::keys_of(pairs)[k]);
        }
    }
    assert(crate::keymap::keys_of(a).no_duplicates());
    crate::keymap::lemma_map_of_push(a, pairs[k].0, pairs[k].1);
    assert(some_names(t, pairs, k + 1) =~= some_names(t, pairs, k).insert((t.net_id, pairs[k].0), pairs[k].1));
}

proof fn lemma_all_names(t: TargetConfigView, pairs: Seq<(u16, Seq<char>)>)
    requires
        t.task_names == crate::keymap::map_of(pairs),
    ensures
        some_names(t, pairs, pairs.len() as int) == own_names(t),
{
    assert(pairs.take(pairs.len() as int) =~= pairs);
}

} // verus!
