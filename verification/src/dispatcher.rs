//! Requests to PLCs and their responses, whichever transport reaches the PLC.
//!
//! A route table says how each Net ID is reached: peers announce themselves over MQTT, others
//! are entered by hand. A request gets a fresh invoke id; the response with that id answers it.
use vstd::prelude::*;
use vstd::utf8::{decode_utf8, valid_utf8};

use crate::ams::{dotted, net_id_of, AmsHeader, AmsHeaderView, AmsNetId};
use crate::diagnostics::viewed;
use crate::error::{AdsError, AdsErrorView};
use crate::idmap::IdMap;
use crate::keymap::{keys_of, map_of, KeyMap};
use crate::text::{
    char_from, chars_of, contains_text, ends_with, find_char, has_prefix, has_suffix, has_text, hex, lower, lower_chars,
    push_hex, starts_with, text_from_utf8, text_of,
};
use crate::time::{duration_debug, duration_text, Duration};
use crate::topics::{ams_topic, info_topic, make_ams_topic};
use crate::wire::{copy_range, le32, put_slice, put_u32};

verus! {

broadcast use crate::wire::group_wire;

/// The state flag of a response.
pub const AMS_STATE_RESPONSE: u16 = 0x0001;

/// The state flags of a request.
pub const AMS_STATE_COMMAND: u16 = 0x0004;

#[derive(Debug, Clone, Copy, PartialEq, Eq, Hash, Structural)]
pub enum TransportKind {
    Mqtt,
    Tcp,
}

impl View for TransportKind {
    type V = TransportKind;

    open spec fn view(&self) -> TransportKind {
        *self
    }
}

impl TransportKind {
    pub open spec fn name(self) -> Seq<char> {
        match self {
            TransportKind::Mqtt => "Mqtt"@,
            TransportKind::Tcp => "Tcp"@,
        }
    }

    pub fn to_string(&self) -> (r: String)
        ensures
            r@ == self.name(),
    {
        match self {
            TransportKind::Mqtt => String::from_str("Mqtt"),
            TransportKind::Tcp => String::from_str("Tcp"),
        }
    }
}

/// How each Net ID is reached.
#[derive(Debug)]
pub struct RouteTable {
    inner: KeyMap<AmsNetId, TransportKind>,
}

impl View for RouteTable {
    type V = Map<Seq<u8>, TransportKind>;

    closed spec fn view(&self) -> Map<Seq<u8>, TransportKind> {
        self.inner@
    }
}

pub open spec fn route_view(r: (AmsNetId, TransportKind)) -> (Seq<u8>, TransportKind) {
    (r.0@, r.1)
}

impl RouteTable {
    pub fn new() -> (r: Self)
        ensures
            r@ == Map::<Seq<u8>, TransportKind>::empty(),
    {
        RouteTable { inner: KeyMap::new() }
    }

    /// Learns a route; says whether it is new or another than before.
    pub fn learn(&mut self, net_id: AmsNetId, kind: TransportKind) -> (r: bool)
        ensures
            final(self)@ == old(self)@.insert(net_id@, kind),
            r == !(old(self)@.dom().contains(net_id@) && old(self)@[net_id@] == kind),
    {
        let changed = match self.inner.get(&net_id) {
            Some(prev) => *prev != kind,
            None => true,
        };
        self.inner.insert(net_id, kind);
        changed
    }

    /// Forgets a route; gives what it was.
    pub fn forget(&mut self, net_id: AmsNetId) -> (r: Option<TransportKind>)
        ensures
            final(self)@ == old(self)@.remove(net_id@),
            r == (if old(self)@.dom().contains(net_id@) { Some(old(self)@[net_id@]) } else { None }),
    {
        self.inner.remove(&net_id)
    }

    pub fn get(&self, net_id: AmsNetId) -> (r: Option<TransportKind>)
        ensures
            r == (if self@.dom().contains(net_id@) { Some(self@[net_id@]) } else { None }),
    {
        match self.inner.get(&net_id) {
            Some(kind) => Some(*kind),
            None => None,
        }
    }

    pub fn len(&self) -> (r: usize)
        ensures
            r == self@.dom().len(),
            self@.dom().finite(),
    {
        self.inner.len()
    }

    pub fn is_empty(&self) -> (r: bool)
        ensures
            r == (self@ == Map::<Seq<u8>, TransportKind>::empty()),
    {
        self.inner.is_empty()
    }

    /// All routes, each once.
    pub fn snapshot(&self) -> (r: Vec<(AmsNetId, TransportKind)>)
        ensures
            keys_of(r@.map_values(|t: (AmsNetId, TransportKind)| route_view(t))).no_duplicates(),
            map_of(r@.map_values(|t: (AmsNetId, TransportKind)| route_view(t))) == self@,
    {
        let ghost pairs = self.inner.pairs();
        let n: usize = self.inner.len();
        let mut all: Vec<(AmsNetId, TransportKind)> = Vec::new();
        let mut i: usize = 0;
        while i < n
            invariant
                i <= n,
                pairs == self.inner.pairs(),
                n == pairs.len(),
                all@.map_values(|t: (AmsNetId, TransportKind)| route_view(t)) =~= pairs.take(i as int),
            decreases n - i,
        {
            let (k, m) = self.inner.entry_at(i);
            let ghost before = all@;
            all.push((*k, *m));
            assert(route_view(all@.last()) == pairs[i as int]);
            assert(pairs.take(i + 1) =~= pairs.take(i as int).push(pairs[i as int]));
            assert(all@.map_values(|t: (AmsNetId, TransportKind)| route_view(t)) =~= before.map_values(
                |t: (AmsNetId, TransportKind)| route_view(t),
            ).push(pairs[i as int]));
            i = i + 1;
        }
        assert(pairs.take(n as int) =~= pairs);
        all
    }
}

impl Default for RouteTable {
    fn default() -> (r: Self)
        ensures
            r@ == Map::<Seq<u8>, TransportKind>::empty(),
    {
        Self::new()
    }
}

#[derive(Debug)]
pub enum DispatcherError {
    NoRoute(AmsNetId),
    TransportNotAttached(TransportKind),
    Timeout(Duration),
    Closed,
    Ads(AdsError),
    Mqtt(String),
}

pub enum DispatcherErrorView {
    NoRoute(Seq<u8>),
    TransportNotAttached(TransportKind),
    Timeout(Duration),
    Closed,
    Ads(AdsErrorView),
    Mqtt(Seq<char>),
}

impl View for DispatcherError {
    type V = DispatcherErrorView;

    open spec fn view(&self) -> DispatcherErrorView {
        match *self {
            DispatcherError::NoRoute(id) => DispatcherErrorView::NoRoute(id@),
            DispatcherError::TransportNotAttached(kind) => DispatcherErrorView::TransportNotAttached(kind),
            DispatcherError::Timeout(d) => DispatcherErrorView::Timeout(d),
            DispatcherError::Closed => DispatcherErrorView::Closed,
            DispatcherError::Ads(e) => DispatcherErrorView::Ads(e@),
            DispatcherError::Mqtt(s) => DispatcherErrorView::Mqtt(s@),
        }
    }
}

impl DispatcherErrorView {
    /// The message shown for the error.
    pub open spec fn message(self) -> Seq<char> {
        match self {
            DispatcherErrorView::NoRoute(id) => "no route for AMS Net ID "@ + dotted(id),
            DispatcherErrorView::TransportNotAttached(kind) => "transport '"@ + kind.name() + "' not attached"@,
            DispatcherErrorView::Timeout(d) => "request timed out after "@ + duration_debug(d.secs, d.nanos),
            DispatcherErrorView::Closed => "response channel closed — dispatcher shut down"@,
            DispatcherErrorView::Ads(e) => "ads protocol error: "@ + e.message(),
            DispatcherErrorView::Mqtt(s) => "mqtt error: "@ + s,
        }
    }

    /// A timeout is a length of time: its nanoseconds make less than a second.
    pub open spec fn valid(self) -> bool {
        self matches DispatcherErrorView::Timeout(d) ==> d.nanos < 1_000_000_000
    }
}

impl DispatcherError {
    pub fn to_string(&self) -> (r: String)
        requires
            self@.valid(),
        ensures
            r@ == self@.message(),
    {
        match self {
            DispatcherError::NoRoute(id) => String::from_str("no route for AMS Net ID ").concat(&id.to_string()),
            DispatcherError::TransportNotAttached(kind) => String::from_str("transport '").concat(
                &kind.to_string(),
            ).concat("' not attached"),
            DispatcherError::Timeout(d) => String::from_str("request timed out after ").concat(
                &duration_text(d.secs, d.nanos),
            ),
            DispatcherError::Closed => String::from_str("response channel closed — dispatcher shut down"),
            DispatcherError::Ads(e) => String::from_str("ads protocol error: ").concat(&e.to_string()),
            DispatcherError::Mqtt(s) => String::from_str("mqtt error: ").concat(s),
        }
    }
}

/// Takes the frames that are not responses.
pub trait InboundSink {
    fn deliver(&self, header: AmsHeader, payload: Vec<u8>);
}

/// A sink that drops what it gets.
pub struct NullSink;

impl InboundSink for NullSink {
    fn deliver(&self, _header: AmsHeader, _payload: Vec<u8>) {
    }
}

/// A frame with its header read.
#[derive(Debug)]
pub struct ResponseFrame {
    pub header: AmsHeader,
    pub payload: Vec<u8>,
}

pub struct ResponseFrameView {
    pub header: AmsHeaderView,
    pub payload: Seq<u8>,
}

impl View for ResponseFrame {
    type V = ResponseFrameView;

    open spec fn view(&self) -> ResponseFrameView {
        ResponseFrameView { header: self.header@, payload: self.payload@ }
    }
}

/// The length fields of a frame hold lengths modulo 2^32.
pub open spec fn low32(n: int) -> u32 {
    (n % 0x1_0000_0000) as u32
}

/// The AMS/TCP frame of a command: the TCP prefix, the header and the payload.
pub open spec fn command_frame(h: AmsHeaderView, payload: Seq<u8>) -> Seq<u8> {
    seq![0u8, 0u8] + le32(low32(32 + payload.len() as int)) + h.bytes() + payload
}

/// The header of a command without an error.
pub open spec fn command_header(
    target_net_id: Seq<u8>,
    target_port: u16,
    source_net_id: Seq<u8>,
    source_port: u16,
    cmd: u16,
    state_flags: u16,
    invoke_id: u32,
    payload: Seq<u8>,
) -> AmsHeaderView {
    AmsHeaderView {
        target_net_id,
        target_port,
        source_net_id,
        source_port,
        command_id: cmd,
        state_flags,
        data_length: low32(payload.len() as int),
        error_code: 0,
        invoke_id,
    }
}

/// Builds the AMS/TCP frame of a command.
pub fn build_ams_frame(
    target_net_id: AmsNetId,
    target_port: u16,
    source_net_id: AmsNetId,
    source_port: u16,
    cmd: u16,
    state_flags: u16,
    invoke_id: u32,
    payload: &[u8],
) -> (r: Vec<u8>)
    ensures
        r@ == command_frame(
            command_header(
                target_net_id@,
                target_port,
                source_net_id@,
                source_port,
                cmd,
                state_flags,
                invoke_id,
                payload@,
            ),
            payload@,
        ),
{
    let n: u64 = payload.len() as u64 % 0x1_0000_0000;
    let header = AmsHeader {
        target_net_id,
        target_port,
        source_net_id,
        source_port,
        command_id: cmd,
        state_flags,
        data_length: n as u32,
        error_code: 0,
        invoke_id,
    };
    let mut out: Vec<u8> = Vec::new();
    out.push(0);
    out.push(0);
    assert(out@ =~= seq![0u8, 0u8]);
    put_u32(&mut out, ((n + 32) % 0x1_0000_0000) as u32);
    put_slice(&mut out, &header.serialize());
    put_slice(&mut out, payload);
    out
}

/// Whether an `/info` document says that its sender is online. The case of letters does not
/// matter.
pub open spec fn info_online(s: Seq<u8>) -> Option<bool> {
    let text = lower(decode_utf8(s));
    if !valid_utf8(s) {
        None
    } else if has_text(text, ">true</online>"@) {
        Some(true)
    } else if has_text(text, ">false</online>"@) {
        Some(false)
    } else {
        None
    }
}

pub fn parse_info_xml(payload: &[u8]) -> (r: Option<bool>)
    ensures
        r == info_online(payload@),
{
    let text = match text_from_utf8(payload) {
        Ok(t) => t,
        Err(_) => {
            return None;
        },
    };
    let low = lower_chars(&chars_of(&text));
    if contains_text(&low, &chars_of(">true</online>")) {
        Some(true)
    } else if contains_text(&low, &chars_of(">false</online>")) {
        Some(false)
    } else {
        None
    }
}

/// The Net ID between the prefix and the next slash of a topic.
pub open spec fn net_id_in(topic: Seq<char>, prefix: Seq<char>) -> Option<Seq<u8>> {
    let from = prefix.len() + 1;
    let to = char_from(topic, '/', from as int);
    if starts_with(topic, prefix) && topic.len() >= from && topic[prefix.len() as int] == '/' && to < topic.len() {
        match net_id_of(topic.subrange(from as int, to)) {
            Ok(id) => Some(id),
            Err(_) => None,
        }
    } else {
        None
    }
}

pub fn topic_net_id(topic: &str, prefix: &str) -> (r: Option<AmsNetId>)
    ensures
        viewed(r) == net_id_in(topic@, prefix@),
{
    let t = chars_of(topic);
    let p = chars_of(prefix);
    if !has_prefix(&t, &p) || t.len() <= p.len() || t[p.len()] != '/' {
        return None;
    }
    let from: usize = p.len() + 1;
    let to: usize = find_char(&t, '/', from);
    if to == t.len() {
        return None;
    }
    let id = text_of(vstd::slice::slice_subrange(&t, from, to));
    match AmsNetId::from_str_ref(&id) {
        Ok(id) => Some(id),
        Err(_) => None,
    }
}

/// The route table, and the requests that wait, each with whom it asks.
pub struct AmsDispatcher {
    source_net_id: AmsNetId,
    source_port: u16,
    routes: RouteTable,
    pending: IdMap<AmsNetId>,
    invoke_counter: u32,
    mqtt: Option<String>,
}

pub struct DispatcherView {
    pub source_net_id: Seq<u8>,
    pub source_port: u16,
    pub routes: Map<Seq<u8>, TransportKind>,
    pub pending: Map<u32, Seq<u8>>,
    pub invoke_counter: u32,
    /// The topic prefix, once MQTT is attached.
    pub mqtt: Option<Seq<char>>,
}

impl View for AmsDispatcher {
    type V = DispatcherView;

    closed spec fn view(&self) -> DispatcherView {
        DispatcherView {
            source_net_id: self.source_net_id@,
            source_port: self.source_port,
            routes: self.routes@,
            pending: self.pending@,
            invoke_counter: self.invoke_counter,
            mqtt: viewed(self.mqtt),
        }
    }
}

/// A request that goes out.
#[derive(Debug)]
pub struct OutgoingRequest {
    pub invoke_id: u32,
    pub topic: String,
    pub frame: Vec<u8>,
}

pub struct OutgoingRequestView {
    pub invoke_id: u32,
    pub topic: Seq<char>,
    pub frame: Seq<u8>,
}

impl View for OutgoingRequest {
    type V = OutgoingRequestView;

    open spec fn view(&self) -> OutgoingRequestView {
        OutgoingRequestView { invoke_id: self.invoke_id, topic: self.topic@, frame: self.frame@ }
    }
}

/// How the wait for a response ended.
#[derive(Debug)]
pub enum Awaited {
    Response(ResponseFrame),
    /// The request could not be published.
    Unsent(String),
    Closed,
    TimedOut(Duration),
}

/// What a message from the broker led to.
#[derive(Debug)]
pub enum Inbound {
    /// Nothing.
    Ignored,
    /// A peer announced that it is there, or that it is gone.
    Routed,
    /// The response to a request that waited.
    Response(ResponseFrame),
    /// A frame that is not a response.
    Request(ResponseFrame),
}

pub enum InboundView {
    Ignored,
    Routed,
    Response(ResponseFrameView),
    Request(ResponseFrameView),
}

impl View for Inbound {
    type V = InboundView;

    open spec fn view(&self) -> InboundView {
        match *self {
            Inbound::Ignored => InboundView::Ignored,
            Inbound::Routed => InboundView::Routed,
            Inbound::Response(f) => InboundView::Response(f@),
            Inbound::Request(f) => InboundView::Request(f@),
        }
    }
}

/// What a request leads to, and the dispatcher after it.
pub open spec fn begun(d: DispatcherView, target: Seq<u8>, port: u16, cmd: u16, payload: Seq<u8>) -> (
    DispatcherView,
    Result<OutgoingRequestView, DispatcherErrorView>,
) {
    let id = d.invoke_counter;
    let counted = DispatcherView {
        invoke_counter: if id == u32::MAX { 0 } else { (id + 1) as u32 },
        ..d
    };
    let refused = DispatcherView { pending: d.pending.remove(id), ..counted };
    if !d.routes.dom().contains(target) {
        (d, Err(DispatcherErrorView::NoRoute(target)))
    } else if d.routes[target] == TransportKind::Tcp {
        (refused, Err(DispatcherErrorView::TransportNotAttached(TransportKind::Tcp)))
    } else {
        match d.mqtt {
            None => (refused, Err(DispatcherErrorView::TransportNotAttached(TransportKind::Mqtt))),
            Some(prefix) => (
                DispatcherView { pending: d.pending.insert(id, target), ..counted },
                Ok(
                    OutgoingRequestView {
                        invoke_id: id,
                        topic: ams_topic(prefix, target),
                        frame: command_frame(
                            command_header(
                                target,
                                port,
                                d.source_net_id,
                                d.source_port,
                                cmd,
                                AMS_STATE_COMMAND,
                                id,
                                payload,
                            ),
                            payload,
                        ),
                    },
                ),
            ),
        }
    }
}

/// What the end of the wait for a response means.
pub open spec fn finished(a: Awaited) -> Result<Seq<u8>, DispatcherErrorView> {
    match a {
        Awaited::Response(f) => if f.header.error_code != 0 {
            Err(
                DispatcherErrorView::Ads(
                    AdsErrorView::BufferError(
                        "ADS error 0x"@ + hex(f.header.error_code as nat) + " from "@ + dotted(f@.header.source_net_id),
                    ),
                ),
            )
        } else {
            Ok(f.payload@)
        },
        Awaited::Unsent(s) => Err(DispatcherErrorView::Mqtt(s@)),
        Awaited::Closed => Err(DispatcherErrorView::Closed),
        Awaited::TimedOut(d) => Err(DispatcherErrorView::Timeout(d)),
    }
}

/// What a message from the broker leads to, and the dispatcher after it.
pub open spec fn received(d: DispatcherView, topic: Seq<char>, s: Seq<u8>, prefix: Seq<char>) -> (
    DispatcherView,
    InboundView,
) {
    let ams = s.skip(6);
    let frame = ResponseFrameView { header: AmsHeaderView::read(ams), payload: ams.skip(32) };
    let id = frame.header.invoke_id;
    if ends_with(topic, "/info"@) {
        match (net_id_in(topic, prefix), info_online(s)) {
            (Some(peer), Some(true)) => (
                DispatcherView { routes: d.routes.insert(peer, TransportKind::Mqtt), ..d },
                InboundView::Routed,
            ),
            (Some(peer), Some(false)) => (DispatcherView { routes: d.routes.remove(peer), ..d }, InboundView::Routed),
            _ => (d, InboundView::Ignored),
        }
    } else if !ends_with(topic, "/ams"@) && !ends_with(topic, "/ams/res"@) {
        (d, InboundView::Ignored)
    } else if s.len() < 38 {
        (d, InboundView::Ignored)
    } else if frame.header.state_flags & AMS_STATE_RESPONSE == 0 {
        (d, InboundView::Request(frame))
    } else if d.pending.dom().contains(id) {
        (DispatcherView { pending: d.pending.remove(id), ..d }, InboundView::Response(frame))
    } else {
        (d, InboundView::Ignored)
    }
}

/// A peer that announces itself can be asked, and one that says it is gone cannot.
pub proof fn law_announcements_make_routes(
    d: DispatcherView,
    topic: Seq<char>,
    s: Seq<u8>,
    prefix: Seq<char>,
    peer: Seq<u8>,
    port: u16,
    cmd: u16,
    payload: Seq<u8>,
)
    requires
        ends_with(topic, "/info"@),
        net_id_in(topic, prefix) == Some(peer),
    ensures
        info_online(s) == Some(true) ==> received(d, topic, s, prefix).0.routes.dom().contains(peer) && received(
            d,
            topic,
            s,
            prefix,
        ).0.routes[peer] == TransportKind::Mqtt,
        info_online(s) == Some(false) ==> !received(d, topic, s, prefix).0.routes.dom().contains(peer),
        info_online(s) == Some(false) ==> begun(
            received(d, topic, s, prefix).0,
            peer,
            port,
            cmd,
            payload,
        ).1 == Err::<OutgoingRequestView, DispatcherErrorView>(DispatcherErrorView::NoRoute(peer)),
{
}

/// A request that went out waits for its response: the response with its invoke id resolves it,
/// and only once.
pub proof fn law_response_resolves_request(
    d: DispatcherView,
    target: Seq<u8>,
    port: u16,
    cmd: u16,
    payload: Seq<u8>,
    topic: Seq<char>,
    s: Seq<u8>,
    prefix: Seq<char>,
)
    requires
        begun(d, target, port, cmd, payload).1 is Ok,
        ends_with(topic, "/ams/res"@),
        s.len() >= 38,
        AmsHeaderView::read(s.skip(6)).state_flags & AMS_STATE_RESPONSE != 0,
        AmsHeaderView::read(s.skip(6)).invoke_id == d.invoke_counter,
    ensures
        ({
            let waiting = begun(d, target, port, cmd, payload).0;
            let (after, got) = received(waiting, topic, s, prefix);
            &&& got == InboundView::Response(
                (ResponseFrameView { header: AmsHeaderView::read(s.skip(6)), payload: s.skip(6).skip(32) }),
            )
            &&& !after.pending.dom().contains(d.invoke_counter)
            &&& received(after, topic, s, prefix).1 == InboundView::Ignored
        }),
{
    reveal_strlit("/info");
    reveal_strlit("/ams/res");
    if ends_with(topic, "/info"@) {
        assert(topic.skip(topic.len() - 5)[4] == topic.skip(topic.len() - 8)[7]);
    }
}

/// What goes out is what the other side reads: behind the prefix the header with the request's
/// addresses, command and invoke id, and behind it the payload.
pub proof fn law_request_arrives(d: DispatcherView, target: Seq<u8>, port: u16, cmd: u16, payload: Seq<u8>)
    requires
        d.source_net_id.len() == 6,
        target.len() == 6,
    ensures
        begun(d, target, port, cmd, payload).1 matches Ok(request) ==> {
            let h = AmsHeaderView::read(request.frame.skip(6));
            &&& h.target_net_id == target
            &&& h.target_port == port
            &&& h.source_net_id == d.source_net_id
            &&& h.source_port == d.source_port
            &&& h.command_id == cmd
            &&& h.state_flags == AMS_STATE_COMMAND
            &&& h.error_code == 0
            &&& h.invoke_id == request.invoke_id
            &&& request.frame.skip(38) == payload
            &&& payload.len() <= u32::MAX ==> h.data_length == payload.len()
        },
{
    let h = command_header(
        target,
        port,
        d.source_net_id,
        d.source_port,
        cmd,
        AMS_STATE_COMMAND,
        d.invoke_counter,
        payload,
    );
    let frame = command_frame(h, payload);
    assert(frame.skip(6) =~= h.bytes() + payload);
    assert(frame.skip(38) =~= payload);
    crate::ams::law_header_read_of_bytes(h, payload);
}

/// Consecutive requests that go out have different invoke ids.
pub proof fn law_invoke_ids_differ(
    d: DispatcherView,
    first_target: Seq<u8>,
    first_port: u16,
    first_cmd: u16,
    first_payload: Seq<u8>,
    second_target: Seq<u8>,
    second_port: u16,
    second_cmd: u16,
    second_payload: Seq<u8>,
)
    ensures
        ({
            let (next, first) = begun(d, first_target, first_port, first_cmd, first_payload);
            let (_, second) = begun(next, second_target, second_port, second_cmd, second_payload);
            first is Ok && second is Ok ==> first->Ok_0.invoke_id != second->Ok_0.invoke_id
        }),
{
}

/// The topic on which a Net ID announces itself names that Net ID.
pub proof fn law_info_topic_names_its_net_id(prefix: Seq<char>, net_id: Seq<u8>)
    requires
        net_id.len() == 6,
    ensures
        net_id_in(info_topic(prefix, net_id), prefix) == Some(net_id),
        ends_with(info_topic(prefix, net_id), "/info"@),
{
    reveal_strlit("/");
    reveal_strlit("/info");
    let topic = info_topic(prefix, net_id);
    let id = dotted(net_id);
    let from = prefix.len() as int + 1;
    assert(topic =~= prefix + seq!['/'] + id + "/info"@);
    assert(topic.take(prefix.len() as int) =~= prefix);
    assert(topic[prefix.len() as int] == '/');
    assert forall|i: int| from <= i < from + id.len() implies #[trigger] topic[i] != '/' by {
        crate::ams::lemma_dotted_chars(net_id, i - from);
    }
    assert(topic[from + id.len()] == '/');
    lemma_char_from(topic, '/', from, from + id.len());
    assert(topic.subrange(from, from + id.len()) =~= id);
    crate::ams::law_net_id_reads_back(net_id);
    assert(topic.skip(topic.len() - 5) =~= "/info"@);
}

proof fn lemma_char_from(s: Seq<char>, c: char, from: int, at: int)
    requires
        0 <= from <= at < s.len(),
        s[at] == c,
        forall|i: int| from <= i < at ==> #[trigger] s[i] != c,
    ensures
        char_from(s, c, from) == at,
    decreases at - from,
{
    if from < at {
        lemma_char_from(s, c, from + 1, at);
    }
}

impl AmsDispatcher {
    /// A dispatcher without a transport.
    pub fn new(source_net_id: AmsNetId, source_port: u16) -> (r: Self)
        ensures
            r@ == (DispatcherView {
                source_net_id: source_net_id@,
                source_port,
                routes: Map::empty(),
                pending: Map::empty(),
                invoke_counter: 1,
                mqtt: None,
            }),
    {
        AmsDispatcher {
            source_net_id,
            source_port,
            routes: RouteTable::new(),
            pending: IdMap::new(),
            invoke_counter: 1,
            mqtt: None,
        }
    }

    pub fn routes(&self) -> (r: &RouteTable)
        ensures
            r@ == self@.routes,
    {
        &self.routes
    }

    pub fn source_net_id(&self) -> (r: AmsNetId)
        ensures
            r@ == self@.source_net_id,
    {
        self.source_net_id
    }

    pub fn source_port(&self) -> (r: u16)
        ensures
            r == self@.source_port,
    {
        self.source_port
    }

    /// Attaches MQTT with its topic prefix; only once.
    pub fn attach_mqtt(&mut self, topic_prefix: &str) -> (r: Result<(), DispatcherError>)
        ensures
            match r {
                Ok(_) => old(self)@.mqtt is None && final(self)@ == (DispatcherView {
                    mqtt: Some(topic_prefix@),
                    ..old(self)@
                }),
                Err(e) => {
                    &&& old(self)@.mqtt is Some
                    &&& final(self)@ == old(self)@
                    &&& e@ == DispatcherErrorView::Mqtt("MQTT transport already attached"@)
                },
            },
    {
        if self.mqtt.is_some() {
            return Err(DispatcherError::Mqtt(String::from_str("MQTT transport already attached")));
        }
        self.mqtt = Some(topic_prefix.to_string());
        Ok(())
    }

    /// Enters a route by hand.
    pub fn add_static_route(&mut self, net_id: AmsNetId, kind: TransportKind)
        ensures
            final(self)@ == (DispatcherView { routes: old(self)@.routes.insert(net_id@, kind), ..old(self)@ }),
    {
        self.routes.learn(net_id, kind);
    }

    /// Starts a request: it gets an invoke id and waits for its response.
    pub fn begin_request(&mut self, target_net_id: AmsNetId, target_port: u16, cmd: u16, payload: &[u8]) -> (r: Result<
        OutgoingRequest,
        DispatcherError,
    >)
        ensures
            (final(self)@, match r {
                Ok(o) => Ok(o@),
                Err(e) => Err(e@),
            }) == begun(old(self)@, target_net_id@, target_port, cmd, payload@),
    {
        let kind = match self.routes.get(target_net_id) {
            Some(kind) => kind,
            None => {
                return Err(DispatcherError::NoRoute(target_net_id));
            },
        };
        let invoke_id: u32 = self.invoke_counter;
        self.invoke_counter = invoke_id.wrapping_add(1);
        match kind {
            TransportKind::Tcp => {
                self.pending.remove(&invoke_id);
                Err(DispatcherError::TransportNotAttached(TransportKind::Tcp))
            },
            TransportKind::Mqtt => {
                let topic = match &self.mqtt {
                    Some(prefix) => make_ams_topic(prefix, &target_net_id),
                    None => {
                        self.pending.remove(&invoke_id);
                        return Err(DispatcherError::TransportNotAttached(TransportKind::Mqtt));
                    },
                };
                let frame = build_ams_frame(
                    target_net_id,
                    target_port,
                    self.source_net_id,
                    self.source_port,
                    cmd,
                    AMS_STATE_COMMAND,
                    invoke_id,
                    payload,
                );
                self.pending.insert(invoke_id, target_net_id);
                Ok(OutgoingRequest { invoke_id, topic, frame })
            },
        }
    }

    /// Ends a request: gives the payload of its response, or why there is none. Without a
    /// response it waits no longer.
    pub fn finish_request(&mut self, invoke_id: u32, awaited: Awaited) -> (r: Result<Vec<u8>, DispatcherError>)
        ensures
            (match r {
                Ok(p) => Ok(p@),
                Err(e) => Err(e@),
            }) == finished(awaited),
            awaited is Response ==> final(self)@ == old(self)@,
            !(awaited is Response) ==> final(self)@ == (DispatcherView {
                pending: old(self)@.pending.remove(invoke_id),
                ..old(self)@
            }),
    {
        match awaited {
            Awaited::Response(f) => {
                if f.header.error_code != 0 {
                    let mut text = String::from_str("ADS error 0x");
                    push_hex(&mut text, f.header.error_code as u64);
                    text.append(" from ");
                    text.append(&f.header.source_net_id.to_string());
                    Err(DispatcherError::Ads(AdsError::BufferError(text)))
                } else {
                    Ok(f.payload)
                }
            },
            Awaited::Unsent(s) => {
                self.pending.remove(&invoke_id);
                Err(DispatcherError::Mqtt(s))
            },
            Awaited::Closed => {
                self.pending.remove(&invoke_id);
                Err(DispatcherError::Closed)
            },
            Awaited::TimedOut(d) => {
                self.pending.remove(&invoke_id);
                Err(DispatcherError::Timeout(d))
            },
        }
    }

    /// Takes in a message from the broker.
    pub fn handle_incoming_mqtt(&mut self, topic: &str, payload: &[u8], topic_prefix: &str) -> (r: Inbound)
        ensures
            (final(self)@, r@) == received(old(self)@, topic@, payload@, topic_prefix@),
    {
        let t = chars_of(topic);
        if has_suffix(&t, &chars_of("/info")) {
            let peer = topic_net_id(topic, topic_prefix);
            let online = parse_info_xml(payload);
            return match (peer, online) {
                (Some(peer), Some(online)) => {
                    if online {
                        self.routes.learn(peer, TransportKind::Mqtt);
                    } else {
                        self.routes.forget(peer);
                    }
                    Inbound::Routed
                },
                _ => Inbound::Ignored,
            };
        }
        if !has_suffix(&t, &chars_of("/ams")) && !has_suffix(&t, &chars_of("/ams/res")) {
            return Inbound::Ignored;
        }
        if payload.len() < 38 {
            return Inbound::Ignored;
        }
        let ams = vstd::slice::slice_subrange(payload, 6, payload.len());
        assert(ams@ =~= payload@.skip(6));
        let header = match AmsHeader::parse(ams) {
            Ok(h) => h,
            Err(_) => {
                return Inbound::Ignored;
            },
        };
        let body = copy_range(ams, 32, ams.len());
        assert(body@ =~= ams@.skip(32));
        let invoke_id: u32 = header.invoke_id;
        let frame = ResponseFrame { header, payload: body };
        if header.state_flags & AMS_STATE_RESPONSE == 0 {
            return Inbound::Request(frame);
        }
        match self.pending.remove(&invoke_id) {
            Some(_) => Inbound::Response(frame),
            None => {
                assert(self@.pending =~= old(self)@.pending);
                Inbound::Ignored
            },
        }
    }

    /// Hands a frame that is not a response to the sink; says whether there was one.
    pub fn deliver_to<S: InboundSink>(inbound: Inbound, sink: &S) -> (r: bool)
        ensures
            r == (inbound is Request),
            inbound matches Inbound::Request(f) ==> call_ensures(S::deliver, (sink, f.header, f.payload), ()),
    {
        match inbound {
            Inbound::Request(f) => {
                sink.deliver(f.header, f.payload);
                true
            },
            _ => false,
        }
    }
}

} // verus!
