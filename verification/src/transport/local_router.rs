//! A client of the TwinCAT router on the same machine: it registers a port there and gets the
//! frames for that port over the same socket.
use vstd::prelude::*;

use crate::ams::AmsNetId;
use crate::error::{outcome, AdsError, AdsErrorView};
use crate::frame::{prefixed, with_prefix};
use crate::router::{AdsRouter, AdsRouterView};
use crate::text::{dec, hex, push_padded_hex, with_number, zero_padded};
use crate::time::{Duration, Timestamp};
use crate::transport::tcp::{frame_handled, handle_frame, Handled, HandledView, ReadFailure};
use crate::transport::{AmsTransport, MAX_FRAME_LEN};
use crate::wire::{get_array6, get_u16, get_u32, le16, put_u16, u16_at, u32_at};

verus! {

broadcast use crate::wire::group_wire;

pub const AMS_TCP_CMD_ADS: u16 = 0x0000;

pub const AMS_TCP_CMD_PORT_CLOSE: u16 = 0x0001;

pub const AMS_TCP_CMD_PORT_CONNECT: u16 = 0x1000;

pub const AMS_TCP_CMD_ROUTER_NOTE: u16 = 0x1001;

pub const AMS_TCP_CMD_GET_LOCAL_NETID: u16 = 0x1002;

/// The AMS port that the service registers.
pub const TC_OTEL_REGISTER_PORT: u16 = 16150;

/// The first six bytes of what the router sends to a registration.
pub open spec fn connect_header(s: Seq<u8>) -> Result<u32, AdsErrorView> {
    if u16_at(s, 0) != AMS_TCP_CMD_PORT_CONNECT {
        Err(
            AdsErrorView::BufferError(
                "PortConnect: unexpected response cmd 0x"@ + zero_padded(hex(u16_at(s, 0) as nat), 4),
            ),
        )
    } else if u32_at(s, 2) < 8 {
        Err(AdsErrorView::BufferError("PortConnect: short response ("@ + dec(u32_at(s, 2) as nat) + " bytes)"@))
    } else {
        Ok(u32_at(s, 2))
    }
}

/// What the client waits for.
#[derive(Debug, Clone, Copy, PartialEq, Eq, Structural)]
pub enum RouterState {
    /// The six bytes before a frame.
    Prefix,
    /// What follows them.
    Body { command: u16, len: u32 },
    /// Nothing: the connection is over.
    Closed,
}

impl RouterState {
    /// The number of bytes that are read next.
    pub open spec fn wants(self) -> int {
        match self {
            RouterState::Prefix => 6,
            RouterState::Body { command: _, len } => len as int,
            RouterState::Closed => 0,
        }
    }

    pub fn wanted(&self) -> (r: usize)
        ensures
            r == self.wants(),
    {
        match self {
            RouterState::Prefix => 6,
            RouterState::Body { command: _, len } => *len as usize,
            RouterState::Closed => 0,
        }
    }
}

/// What the bytes that the client waited for lead to. Frames of ADS are answered, others are
/// passed over; a too long frame ends the connection.
pub open spec fn router_step(state: RouterState, r: AdsRouterView, s: Seq<u8>, now: Timestamp) -> (
    RouterState,
    AdsRouterView,
    HandledView,
) {
    match state {
        RouterState::Prefix => if u32_at(s, 2) > MAX_FRAME_LEN {
            (RouterState::Closed, r, HandledView::nothing())
        } else if u32_at(s, 2) == 0 {
            (RouterState::Prefix, r, HandledView::nothing())
        } else {
            (RouterState::Body { command: u16_at(s, 0), len: u32_at(s, 2) }, r, HandledView::nothing())
        },
        RouterState::Body { command, len: _ } => if command != AMS_TCP_CMD_ADS {
            (RouterState::Prefix, r, HandledView::nothing())
        } else {
            let (after, handled) = frame_handled(r, s, now);
            (RouterState::Prefix, after, handled)
        },
        RouterState::Closed => (RouterState::Closed, r, HandledView::nothing()),
    }
}

/// Whatever the router sends, the client goes on unless a frame is too long.
pub proof fn law_only_long_frames_end_the_connection(
    state: RouterState,
    r: AdsRouterView,
    s: Seq<u8>,
    now: Timestamp,
)
    requires
        !(state is Closed),
    ensures
        router_step(state, r, s, now).0 is Closed <==> state is Prefix && u32_at(s, 2) > MAX_FRAME_LEN,
{
}

/// A registration's answer names the Net ID and the port.
pub proof fn law_registration_reads_back(net_id: Seq<u8>, port: u16)
    requires
        net_id.len() == 6,
    ensures
        ({
            let body = net_id + le16(port);
            let sent = prefixed(AMS_TCP_CMD_PORT_CONNECT, body);
            &&& connect_header(sent) == Ok::<u32, AdsErrorView>(8)
            &&& sent.skip(6).subrange(0, 6) == net_id
            &&& u16_at(sent.skip(6), 6) == port
        }),
{
    let body = net_id + le16(port);
    crate::frame::law_prefix_reads_back(AMS_TCP_CMD_PORT_CONNECT, body);
    crate::wire::law_le16_read(port);
    assert(body.subrange(6, 8) =~= le16(port));
    crate::wire::lemma_window(body, 6, 8, 0);
    assert(body.subrange(0, 6) =~= net_id);
}

/// Takes in the bytes that the client waited for.
pub fn on_bytes(state: &mut RouterState, router: &mut AdsRouter, bytes: &[u8], now: Timestamp) -> (r: Handled)
    requires
        bytes@.len() == old(state).wants(),
    ensures
        (*final(state), final(router)@, r@) == router_step(*old(state), old(router)@, bytes@, now),
{
    match *state {
        RouterState::Prefix => {
            let command: u16 = get_u16(bytes, 0);
            let len: u32 = get_u32(bytes, 2);
            if len > MAX_FRAME_LEN {
                *state = RouterState::Closed;
            } else if len > 0 {
                *state = RouterState::Body { command, len };
            }
            Handled { reply: None, dispatched: None }
        },
        RouterState::Body { command, len: _ } => {
            *state = RouterState::Prefix;
            if command != AMS_TCP_CMD_ADS {
                return Handled { reply: None, dispatched: None };
            }
            handle_frame(router, bytes, now)
        },
        RouterState::Closed => Handled { reply: None, dispatched: None },
    }
}

/// What the end of reading means: between frames a closed connection is no error; `what` is the
/// text of the failure.
pub fn on_read_failure(state: &mut RouterState, failure: ReadFailure, what: String) -> (r: Result<(), AdsError>)
    ensures
        *final(state) == RouterState::Closed,
        match r {
            Ok(_) => failure is Eof && *old(state) == RouterState::Prefix,
            Err(e) => !(failure is Eof && *old(state) == RouterState::Prefix) && e@ == AdsErrorView::IoError(what@),
        },
{
    let between = match *state {
        RouterState::Prefix => true,
        _ => false,
    };
    *state = RouterState::Closed;
    match failure {
        ReadFailure::Eof => if between {
            Ok(())
        } else {
            Err(AdsError::IoError(what))
        },
        ReadFailure::Io(_) => Err(AdsError::IoError(what)),
    }
}

/// What happened to the link to the router.
#[derive(Debug, Clone, Copy, PartialEq, Eq, Structural)]
pub enum LinkEvent {
    ConnectFailed,
    RegistrationFailed,
    ConnectionEnded,
}

/// The client of the router.
pub struct LocalRouterAmsTransport {
    router_host: String,
    router_port: u16,
    register_port: u16,
    local_net_id: AmsNetId,
}

pub struct LocalRouterView {
    pub router_host: Seq<char>,
    pub router_port: u16,
    pub register_port: u16,
    /// Zeros until the first registration.
    pub local_net_id: Seq<u8>,
}

impl View for LocalRouterAmsTransport {
    type V = LocalRouterView;

    closed spec fn view(&self) -> LocalRouterView {
        LocalRouterView {
            router_host: self.router_host@,
            router_port: self.router_port,
            register_port: self.register_port,
            local_net_id: self.local_net_id@,
        }
    }
}

impl LocalRouterAmsTransport {
    pub fn new(router_host: String, router_port: u16) -> (r: Self)
        ensures
            r@ == (LocalRouterView {
                router_host: router_host@,
                router_port,
                register_port: TC_OTEL_REGISTER_PORT,
                local_net_id: seq![0u8, 0, 0, 0, 0, 0],
            }),
    {
        let zeros: [u8; 6] = [0, 0, 0, 0, 0, 0];
        assert(zeros@ =~= seq![0u8, 0, 0, 0, 0, 0]);
        LocalRouterAmsTransport {
            router_host,
            router_port,
            register_port: TC_OTEL_REGISTER_PORT,
            local_net_id: AmsNetId::from_bytes(zeros),
        }
    }

    pub fn with_register_port(self, port: u16) -> (r: Self)
        ensures
            r@ == (LocalRouterView { register_port: port, ..self@ }),
    {
        LocalRouterAmsTransport { register_port: port, ..self }
    }

    pub fn register_port(&self) -> (r: u16)
        ensures
            r == self@.register_port,
    {
        self.register_port
    }

    /// The host and port of the router.
    pub fn router_address(&self) -> (r: (&String, u16))
        ensures
            r.0@ == self@.router_host,
            r.1 == self@.router_port,
    {
        (&self.router_host, self.router_port)
    }

    /// The packet that registers the port.
    pub fn registration(&self) -> (r: Vec<u8>)
        ensures
            r@ == prefixed(AMS_TCP_CMD_PORT_CONNECT, le16(self@.register_port)),
    {
        let mut payload: Vec<u8> = Vec::new();
        put_u16(&mut payload, self.register_port);
        assert(payload@ =~= le16(self@.register_port));
        with_prefix(AMS_TCP_CMD_PORT_CONNECT, &payload)
    }

    /// Reads the header of the answer to a registration; gives the length of what follows.
    pub fn read_connect_header(header: &[u8]) -> (r: Result<u32, AdsError>)
        requires
            header@.len() == 6,
        ensures
            outcome(r) == connect_header(header@),
    {
        let command: u16 = get_u16(header, 0);
        let len: u32 = get_u32(header, 2);
        if command != AMS_TCP_CMD_PORT_CONNECT {
            let mut text = String::from_str("PortConnect: unexpected response cmd 0x");
            push_padded_hex(&mut text, command as u64, 4);
            return Err(AdsError::BufferError(text));
        }
        if len < 8 {
            return Err(
                AdsError::BufferError(with_number("PortConnect: short response (", len as u64, " bytes)")),
            );
        }
        Ok(len)
    }

    /// Reads the rest of the answer: the Net ID, which is kept, and the port that was assigned.
    pub fn on_registered(&mut self, body: &[u8]) -> (r: u16)
        requires
            body@.len() >= 8,
        ensures
            final(self)@ == (LocalRouterView { local_net_id: body@.subrange(0, 6), ..old(self)@ }),
            r == u16_at(body@, 6),
    {
        self.local_net_id = AmsNetId::from_bytes(get_array6(body, 0));
        get_u16(body, 6)
    }

    /// The packet that gives the port back.
    pub fn deregistration() -> (r: Vec<u8>)
        ensures
            r@ == prefixed(AMS_TCP_CMD_PORT_CLOSE, Seq::empty()),
    {
        let nothing: Vec<u8> = Vec::new();
        assert(nothing@ =~= Seq::empty());
        with_prefix(AMS_TCP_CMD_PORT_CLOSE, &nothing)
    }

    /// How long to wait before the next attempt: 5 s after a failure, 2 s after an end.
    pub fn pause_after(event: LinkEvent) -> (r: Duration)
        ensures
            r == (Duration { secs: if event == LinkEvent::ConnectionEnded { 2 } else { 5 }, nanos: 0 }),
    {
        match event {
            LinkEvent::ConnectionEnded => Duration::from_secs(2),
            _ => Duration::from_secs(5),
        }
    }
}

impl AmsTransport for LocalRouterAmsTransport {
    open spec fn net_id(&self) -> Seq<u8> {
        self@.local_net_id
    }

    fn local_net_id(&self) -> (r: AmsNetId) {
        self.local_net_id
    }

    /// Answers go where their requests came from, so there is nothing to send.
    fn send(&self, _dest: AmsNetId, _frame: Vec<u8>) -> (r: Result<(), AdsError>)
        ensures
            r is Ok,
    {
        Ok(())
    }
}

} // verus!
