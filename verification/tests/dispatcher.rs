use std::cell::Cell;
use tc_otel::ams::{AmsHeader, AmsNetId, ADS_CMD_READ, ADS_CMD_WRITE};
use tc_otel::dispatcher::{
    build_ams_frame, parse_info_xml, topic_net_id, AmsDispatcher, Awaited, DispatcherError, Inbound, InboundSink,
    NullSink, RouteTable, TransportKind, AMS_STATE_RESPONSE,
};
use tc_otel::error::AdsError;
use tc_otel::time::Duration;

#[test]
fn route_table_learn_returns_true_for_new() {
    let mut rt = RouteTable::new();
    assert!(rt.learn(AmsNetId([1, 2, 3, 4, 5, 6]), TransportKind::Mqtt));
    assert!(!rt.learn(AmsNetId([1, 2, 3, 4, 5, 6]), TransportKind::Mqtt));
    assert!(rt.learn(AmsNetId([1, 2, 3, 4, 5, 6]), TransportKind::Tcp));
}

#[test]
fn route_table_forget_returns_previous() {
    let mut rt = RouteTable::new();
    rt.learn(AmsNetId([1, 2, 3, 4, 5, 6]), TransportKind::Mqtt);
    assert_eq!(
        rt.forget(AmsNetId([1, 2, 3, 4, 5, 6])),
        Some(TransportKind::Mqtt)
    );
    assert_eq!(rt.forget(AmsNetId([1, 2, 3, 4, 5, 6])), None);
}

#[test]
fn topic_net_id_parses_standard_shape() {
    let id = topic_net_id("AdsOverMqtt/10.1.2.3.1.1/info", "AdsOverMqtt");
    assert_eq!(id, Some(AmsNetId([10, 1, 2, 3, 1, 1])));
}

#[test]
fn topic_net_id_rejects_malformed() {
    assert_eq!(topic_net_id("AdsOverMqtt/info", "AdsOverMqtt"), None);
    assert_eq!(
        topic_net_id("NopePrefix/10.1.2.3.1.1/info", "AdsOverMqtt"),
        None
    );
    assert_eq!(
        topic_net_id("AdsOverMqtt/not-a-netid/info", "AdsOverMqtt"),
        None
    );
}

#[test]
fn parse_info_xml_online_true() {
    let xml = br#"<info><online name="x" osPlatform="0">true</online></info>"#;
    assert_eq!(parse_info_xml(xml), Some(true));
}

#[test]
fn parse_info_xml_online_false() {
    let xml = br#"<info><online name="x">false</online></info>"#;
    assert_eq!(parse_info_xml(xml), Some(false));
}

#[test]
fn parse_info_xml_rejects_junk() {
    assert_eq!(parse_info_xml(b"not xml"), None);
    assert_eq!(parse_info_xml(b"<info/>"), None);
}

#[test]
fn build_ams_frame_shape() {
    let frame = build_ams_frame(
        AmsNetId([1, 2, 3, 4, 5, 6]),
        851,
        AmsNetId([10, 10, 10, 10, 1, 1]),
        16150,
        ADS_CMD_READ,
        0x0004,
        42,
        &[0xAA, 0xBB, 0xCC],
    );
    // 6-byte TCP prefix + 32-byte AMS header + 3-byte payload = 41 bytes
    assert_eq!(frame.len(), 6 + 32 + 3);
    assert_eq!(&frame[0..2], &[0, 0]);
    let total_len = u32::from_le_bytes([frame[2], frame[3], frame[4], frame[5]]);
    assert_eq!(total_len, 32 + 3);

    let header = AmsHeader::parse(&frame[6..]).unwrap();
    assert_eq!(header.target_net_id, AmsNetId([1, 2, 3, 4, 5, 6]));
    assert_eq!(header.target_port, 851);
    assert_eq!(header.source_net_id, AmsNetId([10, 10, 10, 10, 1, 1]));
    assert_eq!(header.source_port, 16150);
    assert_eq!(header.command_id, ADS_CMD_READ);
    assert_eq!(header.state_flags, 0x0004);
    assert_eq!(header.invoke_id, 42);
    assert_eq!(header.data_length, 3);
}

const PEER: AmsNetId = AmsNetId([1, 2, 3, 4, 5, 6]);
const OWN: AmsNetId = AmsNetId([10, 10, 10, 10, 1, 1]);

#[test]
fn send_request_without_mqtt_attached_errors_cleanly() {
    let mut disp = AmsDispatcher::new(OWN, 16150);
    disp.add_static_route(PEER, TransportKind::Mqtt);
    let err = disp.begin_request(PEER, 851, ADS_CMD_READ, &[]).unwrap_err();
    assert!(matches!(err, DispatcherError::TransportNotAttached(TransportKind::Mqtt)));
    assert_eq!(err.to_string(), "transport 'Mqtt' not attached");
}

#[test]
fn send_request_to_tcp_route_without_tcp_attached_errors() {
    let mut disp = AmsDispatcher::new(OWN, 16150);
    disp.add_static_route(PEER, TransportKind::Tcp);
    let err = disp.begin_request(PEER, 851, ADS_CMD_READ, &[]).unwrap_err();
    assert!(matches!(err, DispatcherError::TransportNotAttached(TransportKind::Tcp)));
}

#[test]
fn send_request_with_no_route_errors() {
    let mut disp = AmsDispatcher::new(OWN, 16150);
    let err = disp.begin_request(PEER, 851, ADS_CMD_READ, &[]).unwrap_err();
    assert!(matches!(err, DispatcherError::NoRoute(_)));
    assert_eq!(err.to_string(), "no route for AMS Net ID 1.2.3.4.5.6");
}

fn info(online: bool) -> Vec<u8> {
    format!("<info><online name=\"x\">{}</online></info>", online).into_bytes()
}

#[test]
fn handle_incoming_info_learns_then_forgets() {
    let mut disp = AmsDispatcher::new(OWN, 16150);
    let peer = AmsNetId([10, 1, 2, 3, 1, 1]);
    disp.handle_incoming_mqtt("AdsOverMqtt/10.1.2.3.1.1/info", &info(true), "AdsOverMqtt");
    assert_eq!(disp.routes().get(peer), Some(TransportKind::Mqtt));
    disp.handle_incoming_mqtt("AdsOverMqtt/10.1.2.3.1.1/info", &info(false), "AdsOverMqtt");
    assert_eq!(disp.routes().get(peer), None);
}

fn framed(header: AmsHeader, payload: &[u8]) -> Vec<u8> {
    let mut frame = vec![0u8, 0];
    frame.extend_from_slice(&(32 + payload.len() as u32).to_le_bytes());
    frame.extend_from_slice(&header.serialize());
    frame.extend_from_slice(payload);
    frame
}

fn answer(invoke_id: u32, error_code: u32) -> AmsHeader {
    AmsHeader {
        target_net_id: OWN,
        target_port: 16150,
        source_net_id: PEER,
        source_port: 851,
        command_id: ADS_CMD_READ,
        state_flags: AMS_STATE_RESPONSE,
        data_length: 2,
        error_code,
        invoke_id,
    }
}

fn connected() -> AmsDispatcher {
    let mut disp = AmsDispatcher::new(OWN, 16150);
    disp.attach_mqtt("AdsOverMqtt").unwrap();
    disp.add_static_route(PEER, TransportKind::Mqtt);
    disp
}

#[test]
fn handle_incoming_response_resolves_waiter() {
    let mut disp = connected();
    let sent = disp.begin_request(PEER, 851, ADS_CMD_READ, &[7]).unwrap();
    assert_eq!(sent.topic, "AdsOverMqtt/1.2.3.4.5.6/ams");
    assert_eq!(sent.frame[38..], [7]);
    let frame = framed(answer(sent.invoke_id, 0), &[0x11, 0x22]);
    let response = match disp.handle_incoming_mqtt("AdsOverMqtt/10.10.10.10.1.1/ams/res", &frame, "AdsOverMqtt") {
        Inbound::Response(f) => f,
        other => panic!("expected a response, got {:?}", other),
    };
    assert_eq!(response.header.invoke_id, sent.invoke_id);
    assert_eq!(response.payload, vec![0x11, 0x22]);
    assert_eq!(disp.finish_request(sent.invoke_id, Awaited::Response(response)).unwrap(), vec![0x11, 0x22]);
    let again = disp.handle_incoming_mqtt("AdsOverMqtt/10.10.10.10.1.1/ams/res", &frame, "AdsOverMqtt");
    assert!(matches!(again, Inbound::Ignored));
}

struct CountSink(Cell<usize>);

impl InboundSink for CountSink {
    fn deliver(&self, _h: AmsHeader, _p: Vec<u8>) {
        self.0.set(self.0.get() + 1);
    }
}

#[test]
fn handle_incoming_non_response_goes_to_sink() {
    let mut disp = AmsDispatcher::new(OWN, 16150);
    let header = AmsHeader { command_id: ADS_CMD_WRITE, state_flags: 0x0004, data_length: 0, invoke_id: 1, ..answer(1, 0) };
    let sink = CountSink(Cell::new(0));
    let inbound = disp.handle_incoming_mqtt("AdsOverMqtt/10.10.10.10.1.1/ams", &framed(header, &[]), "AdsOverMqtt");
    assert!(AmsDispatcher::deliver_to(inbound, &sink));
    assert_eq!(sink.0.get(), 1);
    assert!(!AmsDispatcher::deliver_to(Inbound::Ignored, &NullSink));
}

#[test]
fn ends_of_a_wait() {
    let mut disp = connected();
    let sent = disp.begin_request(PEER, 851, ADS_CMD_READ, &[]).unwrap();
    let next = disp.begin_request(PEER, 851, ADS_CMD_READ, &[]).unwrap();
    assert_ne!(sent.invoke_id, next.invoke_id);
    let err = disp.finish_request(sent.invoke_id, Awaited::TimedOut(Duration::from_millis(1500))).unwrap_err();
    assert_eq!(err.to_string(), "request timed out after 1.5s");
    let err = disp.finish_request(next.invoke_id, Awaited::Closed).unwrap_err();
    assert!(matches!(err, DispatcherError::Closed));
    let err = disp.finish_request(0, Awaited::Unsent("gone".to_string())).unwrap_err();
    assert_eq!(err.to_string(), "mqtt error: gone");
    let failed = match disp.handle_incoming_mqtt(
        "AdsOverMqtt/10.10.10.10.1.1/ams/res",
        &framed(answer(next.invoke_id, 0x745), &[]),
        "AdsOverMqtt",
    ) {
        Inbound::Ignored => tc_otel::dispatcher::ResponseFrame { header: answer(1, 0x745), payload: vec![] },
        other => panic!("the wait is over, got {:?}", other),
    };
    match disp.finish_request(1, Awaited::Response(failed)).unwrap_err() {
        DispatcherError::Ads(AdsError::BufferError(text)) => {
            assert_eq!(text, "ADS error 0x745 from 1.2.3.4.5.6");
        }
        other => panic!("expected an ADS error, got {:?}", other),
    }
}

#[test]
fn own_announcement_is_understood() {
    assert_eq!(parse_info_xml(b"<INFO><ONLINE name=\"a\">TRUE</ONLINE></INFO>"), Some(true));
    assert_eq!(parse_info_xml(&[0xFF, 0xFE]), None);
}

#[test]
fn route_tables_list_their_routes() {
    let mut rt = RouteTable::new();
    assert!(rt.is_empty());
    rt.learn(PEER, TransportKind::Mqtt);
    rt.learn(OWN, TransportKind::Tcp);
    assert_eq!(rt.len(), 2);
    let routes = rt.snapshot();
    assert!(routes.contains(&(PEER, TransportKind::Mqtt)));
    assert!(routes.contains(&(OWN, TransportKind::Tcp)));
}
