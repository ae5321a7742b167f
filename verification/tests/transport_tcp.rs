use tc_otel::ams::{AmsHeader, AmsNetId, ADS_CMD_READ_STATE, ADS_STATE_REQUEST};
use tc_otel::ams_server::AmsTcpServer;
use tc_otel::connection_manager::ConnectionConfig;
use tc_otel::error::AdsError;
use tc_otel::frame::with_prefix;
use tc_otel::registry::TaskRegistry;
use tc_otel::router::AdsRouter;
use tc_otel::time::{Duration, Timestamp};
use tc_otel::transport::local_router::{
    self, LinkEvent, LocalRouterAmsTransport, RouterState, AMS_TCP_CMD_PORT_CONNECT, AMS_TCP_CMD_ROUTER_NOTE,
};
use tc_otel::transport::AmsTransport;
use tc_otel::transport::tcp::{self, ReadFailure, TcpAmsTransport, TcpState};

const NOW: Timestamp = Timestamp { secs: 1_700_000_000, nanos: 0 };

fn router() -> AdsRouter {
    AdsRouter::new(16150, false, TaskRegistry::new())
}

fn state_request() -> Vec<u8> {
    AmsHeader {
        target_net_id: AmsNetId([10, 0, 0, 1, 1, 1]),
        target_port: 16150,
        source_net_id: AmsNetId([5, 6, 7, 8, 1, 1]),
        source_port: 851,
        command_id: ADS_CMD_READ_STATE,
        state_flags: ADS_STATE_REQUEST,
        data_length: 0,
        error_code: 0,
        invoke_id: 9,
    }
    .serialize()
}

fn answered(reply: &[u8]) {
    assert_eq!(reply[..6], [0, 0, 40, 0, 0, 0]);
    let header = AmsHeader::parse(&reply[6..]).unwrap();
    assert_eq!(header.target_net_id, AmsNetId([5, 6, 7, 8, 1, 1]));
    assert_eq!(header.invoke_id, 9);
    assert_eq!(reply[38..], [0, 0, 0, 0, 5, 0, 0, 0]);
}

#[test]
fn frames_behind_a_prefix_are_answered() {
    let mut r = router();
    let mut state = TcpState::Prefix;
    assert_eq!(state.wanted(), 6);
    let sent = with_prefix(0, &state_request());
    let handled = tcp::on_bytes(&mut state, &mut r, &sent[..6], NOW);
    assert!(handled.reply.is_none());
    assert_eq!(state, TcpState::Body(32));
    assert_eq!(state.wanted(), 32);
    let handled = tcp::on_bytes(&mut state, &mut r, &sent[6..], NOW);
    answered(&handled.reply.unwrap());
    assert_eq!(state, TcpState::Prefix);
}

#[test]
fn bad_prefixes_drop_the_connection() {
    for prefix in [[1, 0, 32, 0, 0, 0], [0, 0, 0, 0, 0, 0], [0, 0, 1, 0, 0, 1]] {
        let mut state = TcpState::Prefix;
        tcp::on_bytes(&mut state, &mut router(), &prefix, NOW);
        assert_eq!(state, TcpState::Closed);
        assert_eq!(state.wanted(), 0);
    }
    let mut state = TcpState::Prefix;
    tcp::on_bytes(&mut state, &mut router(), &[0, 0, 0, 0, 0, 1], NOW);
    assert_eq!(state, TcpState::Body(16 * 1_048_576));
}

#[test]
fn short_frames_are_skipped() {
    let mut state = TcpState::Body(31);
    let handled = tcp::on_bytes(&mut state, &mut router(), &[0; 31], NOW);
    assert!(handled.reply.is_none() && handled.dispatched.is_none());
    assert_eq!(state, TcpState::Prefix);
}

#[test]
fn ends_of_reading() {
    let mut state = TcpState::Body(40);
    assert!(tcp::on_read_failure(&mut state, ReadFailure::Eof).is_ok());
    assert_eq!(state, TcpState::Closed);
    let mut state = TcpState::Prefix;
    assert_eq!(
        tcp::on_read_failure(&mut state, ReadFailure::Io("reset".to_string())).unwrap_err(),
        AdsError::IoError("reset".to_string())
    );
    let mut state = RouterState::Prefix;
    assert!(local_router::on_read_failure(&mut state, ReadFailure::Eof, "eof".to_string()).is_ok());
    let mut state = RouterState::Body { command: 0, len: 8 };
    assert_eq!(
        local_router::on_read_failure(&mut state, ReadFailure::Eof, "eof".to_string()).unwrap_err(),
        AdsError::IoError("eof".to_string())
    );
    assert_eq!(state, RouterState::Closed);
}

#[test]
fn discovery_names_the_service() {
    let packet = TcpAmsTransport::build_udp_discovery_response(&AmsNetId([1, 2, 3, 4, 5, 6]));
    assert_eq!(packet[..8], [0x03, 0x66, 0x14, 0x71, 24, 0, 0, 0]);
    assert_eq!(packet[8..14], [1, 2, 3, 4, 5, 6]);
    assert_eq!(packet[14..16], 48898u16.to_le_bytes());
    assert_eq!(&packet[16..], b"tc-otel-rust\0\0\0\0");
}

#[test]
fn transports_and_servers_keep_their_settings() {
    let net_id = AmsNetId([1, 2, 3, 4, 5, 6]);
    let t = TcpAmsTransport::new("0.0.0.0".to_string(), net_id, router());
    assert_eq!((t.host.as_str(), t.port), ("0.0.0.0", 48898));
    assert_eq!(t.connection_manager().max_connections(), 100);
    let t = t.with_port(4711);
    assert_eq!(t.port, 4711);
    assert_eq!(t.local_net_id(), net_id);
    assert!(t.send(net_id, vec![1]).is_ok());
    assert!(t.task_registry().is_empty());
    let server = AmsTcpServer::new("h".to_string(), net_id, 16150);
    let server = server.with_connection_config(ConnectionConfig { max_connections: 3, ..Default::default() });
    assert_eq!(server.connection_manager().max_connections(), 3);
    assert!(server.task_registry().is_empty());
    assert_eq!(server.inner.port, 48898);
}

#[test]
fn the_router_registers_the_port() {
    let mut link = LocalRouterAmsTransport::new("127.0.0.1".to_string(), 48898);
    assert_eq!(link.local_net_id(), AmsNetId([0; 6]));
    assert_eq!(link.router_address(), (&"127.0.0.1".to_string(), 48898));
    assert_eq!(link.registration(), vec![0x00, 0x10, 2, 0, 0, 0, 0x16, 0x3F]);
    let answer = with_prefix(AMS_TCP_CMD_PORT_CONNECT, &[5, 80, 1, 2, 1, 1, 0x16, 0x3F]);
    assert_eq!(LocalRouterAmsTransport::read_connect_header(&answer[..6]).unwrap(), 8);
    assert_eq!(link.on_registered(&answer[6..]), 16150);
    assert_eq!(link.local_net_id(), AmsNetId([5, 80, 1, 2, 1, 1]));
    let link = link.with_register_port(20000);
    assert_eq!(link.register_port(), 20000);
    assert_eq!(LocalRouterAmsTransport::deregistration(), vec![1, 0, 0, 0, 0, 0]);
    assert_eq!(
        LocalRouterAmsTransport::read_connect_header(&[0x02, 0x10, 8, 0, 0, 0]).unwrap_err(),
        AdsError::BufferError("PortConnect: unexpected response cmd 0x1002".to_string())
    );
    assert_eq!(
        LocalRouterAmsTransport::read_connect_header(&[0x00, 0x10, 7, 0, 0, 0]).unwrap_err(),
        AdsError::BufferError("PortConnect: short response (7 bytes)".to_string())
    );
}

#[test]
fn frames_of_the_router() {
    let mut r = router();
    let mut state = RouterState::Prefix;
    let sent = with_prefix(0, &state_request());
    local_router::on_bytes(&mut state, &mut r, &sent[..6], NOW);
    assert_eq!(state.wanted(), 32);
    let handled = local_router::on_bytes(&mut state, &mut r, &sent[6..], NOW);
    answered(&handled.reply.unwrap());
    let note = with_prefix(AMS_TCP_CMD_ROUTER_NOTE, &[1; 40]);
    local_router::on_bytes(&mut state, &mut r, &note[..6], NOW);
    assert_eq!(state, RouterState::Body { command: AMS_TCP_CMD_ROUTER_NOTE, len: 40 });
    let handled = local_router::on_bytes(&mut state, &mut r, &note[6..], NOW);
    assert!(handled.reply.is_none() && handled.dispatched.is_none());
    local_router::on_bytes(&mut state, &mut r, &[0; 6], NOW);
    assert_eq!(state, RouterState::Prefix);
    local_router::on_bytes(&mut state, &mut r, &[0, 0, 1, 0, 0, 1], NOW);
    assert_eq!(state, RouterState::Closed);
}

#[test]
fn pauses_between_attempts() {
    assert_eq!(LocalRouterAmsTransport::pause_after(LinkEvent::ConnectFailed), Duration::from_secs(5));
    assert_eq!(LocalRouterAmsTransport::pause_after(LinkEvent::RegistrationFailed), Duration::from_secs(5));
    assert_eq!(LocalRouterAmsTransport::pause_after(LinkEvent::ConnectionEnded), Duration::from_secs(2));
}
