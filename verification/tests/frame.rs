use std::str::FromStr;
use tc_otel::ams::{AmsHeader, AmsNetId, ADS_STATE_REQUEST};
use tc_otel::error::AdsError;
use tc_otel::frame::{with_prefix, AmsFrame};

fn create_test_frame() -> AmsFrame {
    AmsFrame {
        header: AmsHeader {
            target_net_id: AmsNetId::from_str("192.168.1.100.1.1").unwrap(),
            target_port: 16150,
            source_net_id: AmsNetId::from_str("5.0.0.0.1.1").unwrap(),
            source_port: 50000,
            command_id: 3,
            state_flags: ADS_STATE_REQUEST,
            data_length: 10,
            error_code: 0,
            invoke_id: 12345,
        },
        payload: vec![0x01, 0x02, 0x03, 0x04, 0x05, 0x06, 0x07, 0x08, 0x09, 0x0A],
    }
}

#[test]
fn decode_roundtrip() {
    let original = create_test_frame();
    let encoded = original.encode();
    let decoded = AmsFrame::decode(&encoded).unwrap();

    assert_eq!(decoded.header.target_port, original.header.target_port);
    assert_eq!(decoded.header.source_port, original.header.source_port);
    assert_eq!(decoded.header.command_id, original.header.command_id);
    assert_eq!(decoded.header.invoke_id, original.header.invoke_id);
    assert_eq!(decoded.payload, original.payload);
}

#[test]
fn decode_too_short() {
    let result = AmsFrame::decode(&[0x01, 0x02, 0x03]);
    assert!(result.is_err());

    match result.unwrap_err() {
        AdsError::ParseError(msg) => {
            assert!(msg.contains("AMS frame too short"));
        }
        _ => panic!("Expected ParseError"),
    }
}

#[test]
fn tcp_prefix_layout() {
    let frame = create_test_frame();
    let encoded = frame.encode_with_tcp_header();

    // Check minimum length: 6 bytes (TCP prefix) + 32 bytes (AMS header) + payload
    let payload_len = frame.payload.len();
    let expected_len = 6 + 32 + payload_len;
    assert_eq!(encoded.len(), expected_len);

    // Check reserved field (first 2 bytes)
    assert_eq!(&encoded[0..2], &[0x00, 0x00]);

    // Check data length field (next 4 bytes, little-endian)
    let data_length =
        u32::from_le_bytes([encoded[2], encoded[3], encoded[4], encoded[5]]);
    assert_eq!(data_length as usize, 32 + payload_len);
}

#[test]
fn tcp_prefix_strip_decode() {
    let frame = create_test_frame();
    let with_tcp = frame.encode_with_tcp_header();

    // Strip the 6-byte TCP prefix and decode
    let decoded_from_strip = AmsFrame::decode(&with_tcp[6..]).unwrap();

    // Decode directly (no TCP prefix)
    let decoded_direct = AmsFrame::decode(&frame.encode()).unwrap();

    assert_eq!(
        decoded_from_strip.header.invoke_id,
        decoded_direct.header.invoke_id
    );
    assert_eq!(decoded_from_strip.payload, decoded_direct.payload);
}

#[test]
fn build_response_swaps_addresses() {
    let request = create_test_frame();
    let response = request.build_response(vec![0xFF, 0xFF]);

    assert_eq!(
        response.header.target_net_id,
        request.header.source_net_id
    );
    assert_eq!(
        response.header.source_net_id,
        request.header.target_net_id
    );
    assert_eq!(response.header.target_port, request.header.source_port);
    assert_eq!(response.header.source_port, request.header.target_port);
}

#[test]
fn build_response_sets_response_flag() {
    let request = create_test_frame();
    let response = request.build_response(vec![0xFF]);

    assert_eq!(response.header.state_flags, 0x0005);
}

#[test]
fn build_response_echoes_invoke_id() {
    let request = create_test_frame();
    let response = request.build_response(vec![0xFF]);

    assert_eq!(response.header.invoke_id, request.header.invoke_id);
}

#[test]
fn prefix_holds_command_and_length() {
    assert_eq!(with_prefix(0x1234, &[7, 8, 9]), vec![0x34, 0x12, 3, 0, 0, 0, 7, 8, 9]);
}
