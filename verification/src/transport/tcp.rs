//! AMS/TCP: a connection's frames and their answers, and UDP discovery.
use vstd::prelude::*;

use crate::ams::{AmsNetId, AMS_TCP_PORT};
use crate::connection_manager::{ConnectionConfig, ConnectionManager, ManagerView};
use crate::diagnostics::viewed;
use crate::error::{AdsError, AdsErrorView};
use crate::frame::{prefixed, with_prefix};
use crate::registry::TaskRegistry;
use crate::router::{dispatched, AdsRouter, AdsRouterView, Dispatched, DispatchedView};
use crate::time::Timestamp;
use crate::transport::{AmsTransport, MAX_FRAME_LEN};
use crate::wire::{get_u16, get_u32, le16, le32, put_slice, put_u16, put_u32, put_zeros, u16_at, u32_at};

verus! {

broadcast use crate::wire::group_wire;

/// The UDP port of route discovery.
pub const UDP_DISCOVERY_PORT: u16 = 48899;

/// The packet that answers a route discovery.
pub open spec fn discovery_packet(net_id: Seq<u8>) -> Seq<u8> {
    seq![0x03u8, 0x66, 0x14, 0x71] + le32(24) + net_id + le16(AMS_TCP_PORT) + seq![
        116u8,
        99,
        45,
        111,
        116,
        101,
        108,
        45,
        114,
        117,
        115,
        116,
    ] + Seq::new(4, |i: int| 0u8)
}

/// What a connection waits for.
#[derive(Debug, Clone, Copy, PartialEq, Eq, Structural)]
pub enum TcpState {
    /// The six bytes before a frame.
    Prefix,
    /// A frame of that length.
    Body(u32),
    /// Nothing: the connection is dropped.
    Closed,
}

impl TcpState {
    /// The number of bytes that are read next.
    pub open spec fn wants(self) -> int {
        match self {
            TcpState::Prefix => 6,
            TcpState::Body(n) => n as int,
            TcpState::Closed => 0,
        }
    }

    pub fn wanted(&self) -> (r: usize)
        ensures
            r == self.wants(),
    {
        match self {
            TcpState::Prefix => 6,
            TcpState::Body(n) => *n as usize,
            TcpState::Closed => 0,
        }
    }
}

/// What reading ended with.
#[derive(Debug)]
pub enum ReadFailure {
    /// The peer closed the connection.
    Eof,
    Io(String),
}

/// What comes of the bytes that were read: what goes back, and what the frame led to.
pub struct Handled {
    pub reply: Option<Vec<u8>>,
    pub dispatched: Option<Dispatched>,
}

pub struct HandledView {
    pub reply: Option<Seq<u8>>,
    pub dispatched: Option<DispatchedView>,
}

impl View for Handled {
    type V = HandledView;

    open spec fn view(&self) -> HandledView {
        HandledView {
            reply: match self.reply {
                Some(r) => Some(r@),
                None => None,
            },
            dispatched: viewed(self.dispatched),
        }
    }
}

impl HandledView {
    pub open spec fn nothing() -> HandledView {
        HandledView { reply: None, dispatched: None }
    }
}

/// What a frame of at least 32 bytes leads to; a shorter one is skipped.
pub open spec fn frame_handled(r: AdsRouterView, s: Seq<u8>, now: Timestamp) -> (AdsRouterView, HandledView) {
    if s.len() < 32 {
        (r, HandledView::nothing())
    } else {
        let (after, d) = dispatched(r, s, now);
        (
            after,
            HandledView {
                reply: match d.response {
                    Some(x) => Some(prefixed(0, x)),
                    None => None,
                },
                dispatched: Some(d),
            },
        )
    }
}

/// What the bytes that a connection waited for lead to. A prefix that is not of AMS/TCP, or of
/// an empty or too long frame, drops the connection.
pub open spec fn tcp_step(state: TcpState, r: AdsRouterView, s: Seq<u8>, now: Timestamp) -> (
    TcpState,
    AdsRouterView,
    HandledView,
) {
    match state {
        TcpState::Prefix => if u16_at(s, 0) != 0 || u32_at(s, 2) == 0 || u32_at(s, 2) > MAX_FRAME_LEN {
            (TcpState::Closed, r, HandledView::nothing())
        } else {
            (TcpState::Body(u32_at(s, 2)), r, HandledView::nothing())
        },
        TcpState::Body(_) => {
            let (after, handled) = frame_handled(r, s, now);
            (TcpState::Prefix, after, handled)
        },
        TcpState::Closed => (TcpState::Closed, r, HandledView::nothing()),
    }
}

/// A frame behind its prefix is answered behind a prefix: both reads lead to the router's
/// answer.
pub proof fn law_prefixed_frame_is_answered(r: AdsRouterView, frame: Seq<u8>, now: Timestamp)
    requires
        32 <= frame.len() <= MAX_FRAME_LEN,
    ensures
        ({
            let sent = prefixed(0, frame);
            let (waiting, same, _) = tcp_step(TcpState::Prefix, r, sent.take(6), now);
            let (next, after, handled) = tcp_step(waiting, same, sent.skip(6), now);
            &&& waiting == TcpState::Body(frame.len() as u32)
            &&& next == TcpState::Prefix
            &&& after == dispatched(r, frame, now).0
            &&& handled.reply matches Some(reply) && dispatched(r, frame, now).1.response matches Some(answer) && reply
                == prefixed(0, answer)
        }),
{
    let sent = prefixed(0, frame);
    crate::frame::law_prefix_reads_back(0, frame);
    crate::wire::lemma_window(sent, 0, 6, 0);
    crate::wire::lemma_window(sent, 0, 6, 2);
    assert(sent.subrange(0, 6) =~= sent.take(6));
    crate::router::law_every_frame_is_answered(r, frame, now);
}

/// Takes in a frame of at least 32 bytes; skips a shorter one.
pub fn handle_frame(router: &mut AdsRouter, data: &[u8], now: Timestamp) -> (r: Handled)
    ensures
        (final(router)@, r@) == frame_handled(old(router)@, data@, now),
{
    if data.len() < 32 {
        return Handled { reply: None, dispatched: None };
    }
    match router.dispatch_at(data, now) {
        Ok(d) => {
            let reply = match &d.response {
                Some(response) => Some(with_prefix(0, response)),
                None => None,
            };
            Handled { reply, dispatched: Some(d) }
        },
        Err(_) => Handled { reply: None, dispatched: None },
    }
}

/// Takes in the bytes that a connection waited for.
pub fn on_bytes(state: &mut TcpState, router: &mut AdsRouter, bytes: &[u8], now: Timestamp) -> (r: Handled)
    requires
        bytes@.len() == old(state).wants(),
    ensures
        (*final(state), final(router)@, r@) == tcp_step(*old(state), old(router)@, bytes@, now),
{
    match *state {
        TcpState::Prefix => {
            let reserved: u16 = get_u16(bytes, 0);
            let len: u32 = get_u32(bytes, 2);
            if reserved != 0 || len == 0 || len > MAX_FRAME_LEN {
                *state = TcpState::Closed;
            } else {
                *state = TcpState::Body(len);
            }
            Handled { reply: None, dispatched: None }
        },
        TcpState::Body(_) => {
            *state = TcpState::Prefix;
            handle_frame(router, bytes, now)
        },
        TcpState::Closed => Handled { reply: None, dispatched: None },
    }
}

/// What the end of reading means: a closed connection is no error.
pub fn on_read_failure(state: &mut TcpState, failure: ReadFailure) -> (r: Result<(), AdsError>)
    ensures
        *final(state) == TcpState::Closed,
        match r {
            Ok(_) => failure is Eof,
            Err(e) => failure matches ReadFailure::Io(s) && e@ == AdsErrorView::IoError(s@),
        },
{
    *state = TcpState::Closed;
    match failure {
        ReadFailure::Eof => Ok(()),
        ReadFailure::Io(s) => Err(AdsError::IoError(s)),
    }
}

/// The AMS/TCP service: where it listens, who it is, and what it knows.
pub struct TcpAmsTransport {
    pub host: String,
    pub net_id: AmsNetId,
    pub port: u16,
    pub router: AdsRouter,
    pub conn_manager: ConnectionManager,
}

pub struct TcpTransportView {
    pub host: Seq<char>,
    pub net_id: Seq<u8>,
    pub port: u16,
    pub router: AdsRouterView,
    pub connections: ManagerView,
}

impl View for TcpAmsTransport {
    type V = TcpTransportView;

    open spec fn view(&self) -> TcpTransportView {
        TcpTransportView {
            host: self.host@,
            net_id: self.net_id@,
            port: self.port,
            router: self.router@,
            connections: self.conn_manager@,
        }
    }
}

/// A manager that has seen nothing.
pub open spec fn idle_manager(config: ConnectionConfig) -> ManagerView {
    ManagerView { config, ips: Map::empty(), active: 0, shutting_down: false, accepted: 0, rejected: 0 }
}

/// The limits of a service that sets none.
pub open spec fn default_config() -> ConnectionConfig {
    ConnectionConfig {
        max_connections: 100,
        idle_timeout_secs: 300,
        max_connections_per_ip: 10,
        rate_limit_per_sec_per_ip: 10,
        keepalive_interval_secs: 60,
        send_buffer_size: 1_048_576,
        shutdown_timeout_secs: 30,
    }
}

impl TcpAmsTransport {
    pub fn new(host: String, net_id: AmsNetId, router: AdsRouter) -> (r: Self)
        ensures
            r@ == (TcpTransportView {
                host: host@,
                net_id: net_id@,
                port: AMS_TCP_PORT,
                router: router@,
                connections: idle_manager(default_config()),
            }),
    {
        TcpAmsTransport {
            host,
            net_id,
            port: AMS_TCP_PORT,
            router,
            conn_manager: ConnectionManager::new(ConnectionConfig::default()),
        }
    }

    pub fn with_port(self, port: u16) -> (r: Self)
        ensures
            r@ == (TcpTransportView { port, ..self@ }),
    {
        TcpAmsTransport { port, ..self }
    }

    pub fn with_connection_config(self, config: ConnectionConfig) -> (r: Self)
        ensures
            r@ == (TcpTransportView { connections: idle_manager(config), ..self@ }),
    {
        TcpAmsTransport { conn_manager: ConnectionManager::new(config), ..self }
    }

    pub fn connection_manager(&self) -> (r: &ConnectionManager)
        ensures
            r@ == self@.connections,
    {
        &self.conn_manager
    }

    pub fn task_registry(&self) -> (r: &TaskRegistry)
        ensures
            r@ == self@.router.tasks,
    {
        self.router.registry()
    }

    /// The packet that answers a route discovery.
    pub fn build_udp_discovery_response(net_id: &AmsNetId) -> (r: Vec<u8>)
        ensures
            r@ == discovery_packet(net_id@),
    {
        let mut resp: Vec<u8> = Vec::new();
        let magic: [u8; 4] = [0x03, 0x66, 0x14, 0x71];
        let name: [u8; 12] = [116, 99, 45, 111, 116, 101, 108, 45, 114, 117, 115, 116];
        put_slice(&mut resp, &magic);
        put_u32(&mut resp, 24);
        put_slice(&mut resp, net_id.bytes());
        put_u16(&mut resp, AMS_TCP_PORT);
        put_slice(&mut resp, &name);
        put_zeros(&mut resp, 4);
        assert(magic@ =~= seq![0x03u8, 0x66, 0x14, 0x71]);
        assert(name@ =~= seq![116u8, 99, 45, 111, 116, 101, 108, 45, 114, 117, 115, 116]);
        assert(resp@ =~= discovery_packet(net_id@));
        resp
    }
}

impl AmsTransport for TcpAmsTransport {
    open spec fn net_id(&self) -> Seq<u8> {
        self@.net_id
    }

    fn local_net_id(&self) -> (r: AmsNetId) {
        self.net_id
    }

    /// Answers go where their requests came from, so there is nothing to send.
    fn send(&self, _dest: AmsNetId, _frame: Vec<u8>) -> (r: Result<(), AdsError>)
        ensures
            r is Ok,
    {
        Ok(())
    }
}

} // verus!
