use std::str::FromStr;
use tc_otel::ams::{
    AdsWriteRequest, AmsHeader, AmsNetId, AmsTcpFrame, AmsTcpHeader, ADS_CMD_WRITE, ADS_STATE_REQUEST,
    ADS_STATE_RESPONSE,
};
use tc_otel::error::AdsError;

#[test]
fn test_ams_net_id_from_string() {
    let net_id = AmsNetId::from_str("192.168.1.100.1.1").unwrap();
    assert_eq!(net_id.to_string(), "192.168.1.100.1.1");
}

#[test]
fn test_ams_net_id_bytes() {
    let net_id = AmsNetId::from_str("172.17.0.2.1.1").unwrap();
    assert_eq!(net_id.bytes(), &[172, 17, 0, 2, 1, 1]);
}

#[test]
fn test_ams_header_serialize() {
    let header = AmsHeader {
        target_net_id: AmsNetId::from_str("192.168.1.100.1.1").unwrap(),
        target_port: 16150,
        source_net_id: AmsNetId::from_str("192.168.1.50.1.1").unwrap(),
        source_port: 32768,
        command_id: 3,
        state_flags: 0x0004,
        data_length: 50,
        error_code: 0,
        invoke_id: 1,
    };

    let bytes = header.serialize();
    assert_eq!(bytes.len(), 32);
}

#[test]
fn test_ams_header_roundtrip() {
    let header = AmsHeader {
        target_net_id: AmsNetId::from_str("192.168.1.100.1.1").unwrap(),
        target_port: 16150,
        source_net_id: AmsNetId::from_str("192.168.1.50.1.1").unwrap(),
        source_port: 32768,
        command_id: 3,
        state_flags: 0x0004,
        data_length: 50,
        error_code: 0,
        invoke_id: 1,
    };

    let bytes = header.serialize();
    let parsed = AmsHeader::parse(&bytes).unwrap();

    assert_eq!(parsed.target_port, header.target_port);
    assert_eq!(parsed.command_id, header.command_id);
    assert_eq!(parsed.invoke_id, header.invoke_id);
}

#[test]
fn test_ams_tcp_header_parse() {
    let data = [0x00, 0x00, 0x20, 0x00, 0x00, 0x00];
    let header = AmsTcpHeader::parse(&data).unwrap();
    assert_eq!(header.reserved, 0);
    assert_eq!(header.data_length, 32);
}

#[test]
fn test_ams_tcp_header_serialize() {
    let header = AmsTcpHeader {
        reserved: 0,
        data_length: 100,
    };
    let serialized = header.serialize();
    assert_eq!(serialized.len(), 6);
    assert_eq!(serialized[0..2], [0, 0]);
    assert_eq!(serialized[2..6], 100u32.to_le_bytes());
}

#[test]
fn test_ams_tcp_header_roundtrip() {
    let header = AmsTcpHeader {
        reserved: 0,
        data_length: 65535,
    };
    let serialized = header.serialize();
    let parsed = AmsTcpHeader::parse(&serialized).unwrap();
    assert_eq!(parsed.reserved, header.reserved);
    assert_eq!(parsed.data_length, header.data_length);
}

#[test]
fn test_ads_write_request_serialize() {
    let write_req = AdsWriteRequest {
        index_group: 1,
        index_offset: 2,
        data: vec![0x01, 0x02, 0x03, 0x04],
    };

    let serialized = write_req.serialize();
    let parsed = AdsWriteRequest::parse(&serialized).unwrap();
    assert_eq!(parsed.index_group, 1);
    assert_eq!(parsed.index_offset, 2);
    assert_eq!(parsed.data, vec![0x01, 0x02, 0x03, 0x04]);
}

#[test]
fn test_ams_tcp_frame_parse() {
    let payload_len = 12u32; // 12 bytes of payload
    let total_size = 6 + 32 + payload_len as usize;
    let mut data = vec![0u8; total_size];

    // TCP header
    data[0..2].copy_from_slice(&0u16.to_le_bytes()); // reserved
    data[2..6].copy_from_slice(&(32u32 + payload_len).to_le_bytes()); // data_length in TCP header

    // AMS header
    data[6..12].copy_from_slice(&[192, 168, 1, 100, 1, 1]); // target_net_id
    data[12..14].copy_from_slice(&16150u16.to_le_bytes()); // target_port
    data[14..20].copy_from_slice(&[5, 0, 0, 0, 1, 1]); // source_net_id
    data[20..22].copy_from_slice(&50000u16.to_le_bytes()); // source_port
    data[22..24].copy_from_slice(&ADS_CMD_WRITE.to_le_bytes()); // command_id
    data[24..26].copy_from_slice(&ADS_STATE_REQUEST.to_le_bytes()); // state_flags
    data[26..30].copy_from_slice(&payload_len.to_le_bytes()); // data_length in AMS header
    data[30..34].copy_from_slice(&0u32.to_le_bytes()); // error_code
    data[34..38].copy_from_slice(&12345u32.to_le_bytes()); // invoke_id

    // Payload
    for i in 0..12 {
        data[38 + i] = i as u8;
    }

    let frame = AmsTcpFrame::parse(&data).unwrap();
    assert_eq!(frame.tcp_header.data_length, 32 + payload_len);
    assert_eq!(frame.ams_header.command_id, ADS_CMD_WRITE);
    assert_eq!(frame.ams_header.invoke_id, 12345);
    assert_eq!(frame.payload.len(), 12);
}

#[test]
fn test_ams_tcp_frame_serialize() {
    let ams_header = AmsHeader {
        target_net_id: AmsNetId::from_str("192.168.1.100.1.1").unwrap(),
        target_port: 16150,
        source_net_id: AmsNetId::from_str("5.0.0.0.1.1").unwrap(),
        source_port: 50000,
        command_id: ADS_CMD_WRITE,
        state_flags: ADS_STATE_REQUEST,
        data_length: 0,
        error_code: 0,
        invoke_id: 99999,
    };

    let payload = vec![];
    let frame = AmsTcpFrame {
        tcp_header: AmsTcpHeader {
            reserved: 0,
            data_length: 32 + payload.len() as u32,
        },
        ams_header,
        payload,
    };

    let serialized = frame.serialize();
    let parsed = AmsTcpFrame::parse(&serialized).unwrap();
    assert_eq!(parsed.ams_header.invoke_id, 99999);
    assert_eq!(parsed.ams_header.command_id, ADS_CMD_WRITE);
}

#[test]
fn test_ams_tcp_frame_make_response() {
    let request_frame = AmsTcpFrame {
        tcp_header: AmsTcpHeader {
            reserved: 0,
            data_length: 32 + 12,
        },
        ams_header: AmsHeader {
            target_net_id: AmsNetId::from_str("192.168.1.100.1.1").unwrap(),
            target_port: 16150,
            source_net_id: AmsNetId::from_str("5.0.0.0.1.1").unwrap(),
            source_port: 50000,
            command_id: ADS_CMD_WRITE,
            state_flags: ADS_STATE_REQUEST,
            data_length: 12,
            error_code: 0,
            invoke_id: 77777,
        },
        payload: vec![0, 0, 0, 0, 0, 0, 0, 0, 0, 0, 0, 0],
    };

    let response_data = vec![0, 0, 0, 0];
    let response_frame = request_frame.make_response(0, response_data.clone());

    assert_eq!(
        response_frame.ams_header.target_net_id,
        request_frame.ams_header.source_net_id
    );
    assert_eq!(
        response_frame.ams_header.source_net_id,
        request_frame.ams_header.target_net_id
    );
    assert_eq!(response_frame.ams_header.state_flags, ADS_STATE_RESPONSE);
    assert_eq!(
        response_frame.ams_header.invoke_id,
        request_frame.ams_header.invoke_id
    );
    assert_eq!(response_frame.payload, response_data);
}

#[test]
fn test_ams_tcp_frame_extract_write_request() {
    let mut payload = vec![0u8; 20];
    payload[0..4].copy_from_slice(&1u32.to_le_bytes());
    payload[4..8].copy_from_slice(&2u32.to_le_bytes());
    payload[8..12].copy_from_slice(&8u32.to_le_bytes());
    payload[12..20].copy_from_slice(b"testdata");

    let frame = AmsTcpFrame {
        tcp_header: AmsTcpHeader {
            reserved: 0,
            data_length: 32 + 20,
        },
        ams_header: AmsHeader {
            target_net_id: AmsNetId::from_str("192.168.1.100.1.1").unwrap(),
            target_port: 16150,
            source_net_id: AmsNetId::from_str("5.0.0.0.1.1").unwrap(),
            source_port: 50000,
            command_id: ADS_CMD_WRITE,
            state_flags: ADS_STATE_REQUEST,
            data_length: 20,
            error_code: 0,
            invoke_id: 12345,
        },
        payload,
    };

    let write_req = frame.extract_write_request().unwrap();
    assert_eq!(write_req.index_group, 1);
    assert_eq!(write_req.index_offset, 2);
    assert_eq!(write_req.data, b"testdata");
}

#[test]
fn test_ams_tcp_frame_extract_write_wrong_command() {
    let frame = AmsTcpFrame {
        tcp_header: AmsTcpHeader {
            reserved: 0,
            data_length: 32,
        },
        ams_header: AmsHeader {
            target_net_id: AmsNetId::from_str("192.168.1.100.1.1").unwrap(),
            target_port: 16150,
            source_net_id: AmsNetId::from_str("5.0.0.0.1.1").unwrap(),
            source_port: 50000,
            command_id: 99,
            state_flags: ADS_STATE_REQUEST,
            data_length: 0,
            error_code: 0,
            invoke_id: 12345,
        },
        payload: vec![],
    };

    let result = frame.extract_write_request();
    assert!(result.is_err());
}

#[test]
fn net_id_texts_that_are_refused() {
    for text in ["", "1.2.3.4.5", "1.2.3.4.5.6.7", "1.2.3.4.5.256", "1.2.3.4.5.x", "1..3.4.5.6", "1.2.3.4.5.-1"] {
        assert!(AmsNetId::from_str_ref(text).is_err(), "{}", text);
    }
    assert_eq!(AmsNetId::from_str_ref("+1.2.3.4.5.006").unwrap().bytes(), &[1, 2, 3, 4, 5, 6]);
}

#[test]
fn net_id_text_reads_back() {
    let id = AmsNetId::from_bytes([0, 9, 10, 99, 100, 255]);
    assert_eq!(id.to_string(), "0.9.10.99.100.255");
    assert_eq!(AmsNetId::from_str_ref(&id.to_string()).unwrap(), id);
}

#[test]
fn header_bytes_are_little_endian_in_order() {
    let header = AmsHeader {
        target_net_id: AmsNetId::from_bytes([1, 2, 3, 4, 5, 6]),
        target_port: 0x0807,
        source_net_id: AmsNetId::from_bytes([9, 10, 11, 12, 13, 14]),
        source_port: 0x100F,
        command_id: 0x1211,
        state_flags: 0x1413,
        data_length: 0x18171615,
        error_code: 0x1C1B1A19,
        invoke_id: 0x201F1E1D,
    };
    let expected: Vec<u8> = (1..=32).collect();
    assert_eq!(header.serialize(), expected);
    let answer = header.make_response(7);
    assert_eq!(answer.target_net_id, header.source_net_id);
    assert_eq!(answer.source_port, header.target_port);
    assert_eq!(answer.error_code, 7);
    assert_eq!(answer.state_flags, ADS_STATE_RESPONSE);
}

#[test]
fn short_headers_and_requests_are_refused() {
    assert_eq!(
        AmsHeader::parse(&[0; 31]).unwrap_err(),
        AdsError::ParseError("AMS header too short: 31 bytes".to_string())
    );
    assert_eq!(
        AmsTcpHeader::parse(&[0; 5]).unwrap_err().to_string(),
        AdsError::IncompleteMessage { expected: 6, got: 5 }.to_string()
    );
    assert_eq!(
        AdsWriteRequest::parse(&[0; 11]).unwrap_err(),
        AdsError::ParseError("ADS Write request too short: 11 bytes".to_string())
    );
    let mut request = vec![0u8; 13];
    request[8] = 2;
    assert_eq!(
        AdsWriteRequest::parse(&request).unwrap_err(),
        AdsError::ParseError("ADS Write data incomplete: expected 2 bytes".to_string())
    );
    assert_eq!(
        AmsTcpFrame::parse(&[0; 37]).unwrap_err(),
        AdsError::IncompleteMessage { expected: 38, got: 37 }
    );
    let mut frame = vec![0u8; 38];
    frame[2] = 33;
    assert_eq!(
        AmsTcpFrame::parse(&frame).unwrap_err(),
        AdsError::IncompleteMessage { expected: 39, got: 38 }
    );
}
