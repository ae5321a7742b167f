use tc_otel::ads_client::{
    build_read_request_frame, build_read_response_frame, AdsClient, AdsReadRequest, AdsReadResponse,
};
use tc_otel::ams::{AmsNetId, AmsTcpFrame, ADS_CMD_READ, ADS_STATE_REQUEST, ADS_STATE_RESPONSE};
use tc_otel::error::AdsError;
use tc_otel::symbol::{AdsSymbolEntry, AdsSymbolUploadInfo, ADSIGRP_SYM_UPLOAD, ADSIGRP_SYM_UPLOADINFO};

#[test]
fn test_read_request_serialize_parse() {
    let req = AdsReadRequest {
        index_group: ADSIGRP_SYM_UPLOADINFO,
        index_offset: 0,
        read_length: 8,
    };

    let bytes = req.serialize();
    assert_eq!(bytes.len(), 12);

    let parsed = AdsReadRequest::parse(&bytes).unwrap();
    assert_eq!(parsed.index_group, ADSIGRP_SYM_UPLOADINFO);
    assert_eq!(parsed.index_offset, 0);
    assert_eq!(parsed.read_length, 8);
}

#[test]
fn test_read_request_too_short() {
    let data = [0u8; 8];
    assert!(AdsReadRequest::parse(&data).is_err());
}

#[test]
fn test_read_response_serialize_parse() {
    let resp = AdsReadResponse {
        result: 0,
        data: vec![1, 2, 3, 4, 5, 6, 7, 8],
    };

    let bytes = resp.serialize();
    let parsed = AdsReadResponse::parse(&bytes).unwrap();
    assert_eq!(parsed.result, 0);
    assert_eq!(parsed.data, vec![1, 2, 3, 4, 5, 6, 7, 8]);
}

#[test]
fn test_read_response_error_code() {
    let resp = AdsReadResponse {
        result: 0x0706, // ADSERR_DEVICE_SYMBOLNOTFOUND
        data: vec![],
    };

    let bytes = resp.serialize();
    let parsed = AdsReadResponse::parse(&bytes).unwrap();
    assert_eq!(parsed.result, 0x0706);
    assert!(parsed.data.is_empty());
}

#[test]
fn test_read_response_too_short() {
    let data = [0u8; 4];
    assert!(AdsReadResponse::parse(&data).is_err());
}

#[test]
fn test_read_response_data_truncated() {
    // Header says 100 bytes of data but only 4 bytes available
    let mut data = vec![0u8; 12];
    data[0..4].copy_from_slice(&0u32.to_le_bytes()); // result = 0
    data[4..8].copy_from_slice(&100u32.to_le_bytes()); // read_length = 100
                                                       // only 4 bytes of actual data follow
    assert!(AdsReadResponse::parse(&data).is_err());
}

#[test]
fn test_build_read_request_frame() {
    let source = AmsNetId::from_str_ref("10.0.0.1.1.1").unwrap();
    let target = AmsNetId::from_str_ref("5.80.201.232.1.1").unwrap();

    let frame =
        build_read_request_frame(source, 32768, target, 851, ADSIGRP_SYM_UPLOADINFO, 0, 8, 1);

    assert_eq!(frame.ams_header.command_id, ADS_CMD_READ);
    assert_eq!(frame.ams_header.state_flags, ADS_STATE_REQUEST);
    assert_eq!(frame.ams_header.invoke_id, 1);

    // Payload should be 12 bytes (ADS READ request)
    assert_eq!(frame.payload.len(), 12);

    let req = AdsReadRequest::parse(&frame.payload).unwrap();
    assert_eq!(req.index_group, ADSIGRP_SYM_UPLOADINFO);
    assert_eq!(req.read_length, 8);
}

#[test]
fn test_build_read_response_frame() {
    let source = AmsNetId::from_str_ref("10.0.0.1.1.1").unwrap();
    let target = AmsNetId::from_str_ref("5.80.201.232.1.1").unwrap();

    let request_frame =
        build_read_request_frame(source, 32768, target, 851, ADSIGRP_SYM_UPLOADINFO, 0, 8, 42);

    let info = AdsSymbolUploadInfo {
        symbol_count: 10,
        symbol_size: 500,
    };
    let response_frame = build_read_response_frame(&request_frame, 0, &info.serialize());

    // Source/target should be swapped
    assert_eq!(
        response_frame.ams_header.target_net_id,
        request_frame.ams_header.source_net_id
    );
    assert_eq!(
        response_frame.ams_header.source_net_id,
        request_frame.ams_header.target_net_id
    );
    assert_eq!(response_frame.ams_header.state_flags, ADS_STATE_RESPONSE);
    assert_eq!(response_frame.ams_header.invoke_id, 42);

    // Parse the READ response from the payload
    let read_resp = AdsReadResponse::parse(&response_frame.payload).unwrap();
    assert_eq!(read_resp.result, 0);
    let parsed_info = AdsSymbolUploadInfo::parse(&read_resp.data).unwrap();
    assert_eq!(parsed_info.symbol_count, 10);
    assert_eq!(parsed_info.symbol_size, 500);
}

#[test]
fn test_read_request_frame_serialization_roundtrip() {
    let source = AmsNetId::from_str_ref("10.0.0.1.1.1").unwrap();
    let target = AmsNetId::from_str_ref("5.80.201.232.1.1").unwrap();

    let frame =
        build_read_request_frame(source, 32768, target, 851, ADSIGRP_SYM_UPLOAD, 0, 65536, 99);

    let bytes = frame.serialize();
    let parsed = AmsTcpFrame::parse(&bytes).unwrap();

    assert_eq!(parsed.ams_header.command_id, ADS_CMD_READ);
    assert_eq!(parsed.ams_header.invoke_id, 99);

    let req = AdsReadRequest::parse(&parsed.payload).unwrap();
    assert_eq!(req.index_group, ADSIGRP_SYM_UPLOAD);
    assert_eq!(req.read_length, 65536);
}

fn client() -> AdsClient {
    AdsClient::new(
        AmsNetId::from_str_ref("10.0.0.1.1.1").unwrap(),
        32768,
        AmsNetId::from_str_ref("5.80.201.232.1.1").unwrap(),
        851,
    )
}

#[test]
fn client_discovers_symbols() {
    let mut client = client();
    let asked = AmsTcpFrame::parse(&client.begin_symbol_info()).unwrap();
    assert_eq!(asked.ams_header.invoke_id, 1);
    assert_eq!(asked.ams_header.target_port, 851);
    let request = AdsReadRequest::parse(&asked.payload).unwrap();
    assert_eq!((request.index_group, request.index_offset, request.read_length), (0xF00C, 0, 8));

    let entry = AdsSymbolEntry {
        index_group: 0x4040,
        index_offset: 8,
        size: 4,
        data_type: 3,
        flags: 1,
        name: "GVL.nSpeed".to_string(),
        data_type_name: "DINT".to_string(),
        comment: "rpm".to_string(),
    };
    let table = entry.serialize();
    let info = AdsSymbolUploadInfo { symbol_count: 1, symbol_size: table.len() as u32 };
    let reply = build_read_response_frame(&asked, 0, &info.serialize()).serialize();
    assert_eq!(AdsClient::reply_length(&reply[..6]).unwrap() as usize, reply.len() - 6);
    let got = AdsClient::read_symbol_info(&reply[6..]).unwrap();
    assert_eq!(got, info);

    let asked = AmsTcpFrame::parse(&client.begin_symbol_table(&got)).unwrap();
    assert_eq!(asked.ams_header.invoke_id, 2);
    let request = AdsReadRequest::parse(&asked.payload).unwrap();
    assert_eq!(request.index_group, ADSIGRP_SYM_UPLOAD);
    assert_eq!(request.read_length as usize, table.len());
    let reply = build_read_response_frame(&asked, 0, &table).serialize();
    let symbols = AdsClient::read_symbol_table(&reply[6..]).unwrap();
    assert_eq!(symbols, vec![entry]);
}

#[test]
fn invoke_ids_wrap_around() {
    let mut client = client();
    client.invoke_id = u32::MAX;
    let last = AmsTcpFrame::parse(&client.begin_read(1, 2, 3)).unwrap();
    let first = AmsTcpFrame::parse(&client.begin_read(1, 2, 3)).unwrap();
    assert_eq!(last.ams_header.invoke_id, u32::MAX);
    assert_eq!(first.ams_header.invoke_id, 0);
}

#[test]
fn replies_that_are_refused() {
    assert_eq!(
        AdsClient::read_reply(&[0; 31]).unwrap_err(),
        AdsError::IncompleteMessage { expected: 32, got: 31 }
    );
    let asked = AmsTcpFrame::parse(&client().begin_read(1, 2, 3)).unwrap();
    let own = asked.serialize();
    assert_eq!(
        AdsClient::read_reply(&own[6..]).unwrap_err(),
        AdsError::ParseError("expected response state flags 0x0005, got 0x0004".to_string())
    );
    let failed = asked.make_response(0x1B, vec![]).serialize();
    assert_eq!(
        AdsClient::read_reply(&failed[6..]).unwrap_err(),
        AdsError::ParseError("ADS error code: 0x0000001b".to_string())
    );
    let refused = build_read_response_frame(&asked, 0x0706, &[]).serialize();
    assert_eq!(
        AdsClient::read_symbol_info(&refused[6..]).unwrap_err(),
        AdsError::ParseError("ADS READ error for symbol info: 0x00000706".to_string())
    );
    assert_eq!(
        AdsClient::read_symbol_table(&refused[6..]).unwrap_err(),
        AdsError::ParseError("ADS READ error for symbol table: 0x00000706".to_string())
    );
}
