use tc_otel::ams::{AmsHeader, AmsNetId, ADS_CMD_READ, ADS_CMD_WRITE, ADS_STATE_REQUEST};
use tc_otel::diagnostics::{
    decode_request, decode_response, decode_write_from_request, metric_stat_order, DiagEvent, AMSPORT_R0_REALTIME,
    IG_RT_SYSTEM, IG_RT_USAGE, IO_EXCEED_COUNTER, IO_RT_USAGE, IO_TASK_STATS, TASK_MARKER_IDLE, TASK_MARKER_PLC,
};

/// ADS state-flags for a successful response frame (response bit + TCP bit).
const RESPONSE_OK: u16 = 0x0005;

fn net(a: [u8; 6]) -> AmsNetId {
    AmsNetId::from_bytes(a)
}

fn request_header(target_port: u16, command_id: u16, invoke_id: u32, dlen: u32) -> AmsHeader {
    AmsHeader {
        target_net_id: net([10, 10, 10, 10, 1, 1]),
        target_port,
        source_net_id: net([75, 3, 166, 18, 1, 1]),
        source_port: 43568,
        command_id,
        state_flags: ADS_STATE_REQUEST,
        data_length: dlen,
        error_code: 0,
        invoke_id,
    }
}

fn response_header(source_port: u16, command_id: u16, invoke_id: u32, dlen: u32) -> AmsHeader {
    AmsHeader {
        target_net_id: net([75, 3, 166, 18, 1, 1]),
        target_port: 43568,
        source_net_id: net([10, 10, 10, 10, 1, 1]),
        source_port,
        command_id,
        state_flags: RESPONSE_OK,
        data_length: dlen,
        error_code: 0,
        invoke_id,
    }
}

fn read_req_payload(ig: u32, io: u32, size: u32) -> Vec<u8> {
    let mut v = Vec::with_capacity(12);
    v.extend_from_slice(&ig.to_le_bytes());
    v.extend_from_slice(&io.to_le_bytes());
    v.extend_from_slice(&size.to_le_bytes());
    v
}

fn read_resp_payload(result: u32, data: &[u8]) -> Vec<u8> {
    let mut v = Vec::with_capacity(8 + data.len());
    v.extend_from_slice(&result.to_le_bytes());
    v.extend_from_slice(&(data.len() as u32).to_le_bytes());
    v.extend_from_slice(data);
    v
}

fn write_req_payload(ig: u32, io: u32, data: &[u8]) -> Vec<u8> {
    let mut v = Vec::with_capacity(12 + data.len());
    v.extend_from_slice(&ig.to_le_bytes());
    v.extend_from_slice(&io.to_le_bytes());
    v.extend_from_slice(&(data.len() as u32).to_le_bytes());
    v.extend_from_slice(data);
    v
}

#[test]
fn exceed_counter_read_decodes() {
    let req = request_header(100, ADS_CMD_READ, 42, 12);
    let pl = read_req_payload(IG_RT_SYSTEM, IO_EXCEED_COUNTER, 4);
    let (invoke, pending) = decode_request(&req, &pl).expect("known read");
    assert_eq!(invoke, 42);
    assert_eq!(pending.index_group, IG_RT_SYSTEM);
    assert_eq!(pending.index_offset, IO_EXCEED_COUNTER);

    let resp = response_header(100, ADS_CMD_READ, 42, 12);
    let rpl = read_resp_payload(0, &0x1eead_u32.to_le_bytes());
    let ev = decode_response(&resp, &rpl, &pending).unwrap();
    assert_eq!(ev, DiagEvent::ExceedCounter { value: 0x1eead });
}

#[test]
fn exceed_reset_write_decodes_from_request() {
    let req = request_header(100, ADS_CMD_WRITE, 1, 16);
    let pl = write_req_payload(IG_RT_SYSTEM, IO_EXCEED_COUNTER, &[0, 0, 0, 0]);
    assert_eq!(
        decode_write_from_request(&req, &pl),
        Some(DiagEvent::ExceedReset)
    );
}

#[test]
fn task_stats_decodes_from_real_capture() {
    // Captured sample from plctask_run.log (port 350 = PlcTask @ 1 ms):
    // payload 16B = 07 03 71 00  65 2e b9 cf  8a 76 59 8b  00 00 00 00
    let req = request_header(350, ADS_CMD_READ, 7, 12);
    let pl = read_req_payload(IG_RT_SYSTEM, IO_TASK_STATS, 16);
    let (_, pending) = decode_request(&req, &pl).unwrap();

    let data = [
        0x07, 0x03, 0x71, 0x00, 0x65, 0x2e, 0xb9, 0xcf, 0x8a, 0x76, 0x59, 0x8b, 0x00, 0x00,
        0x00, 0x00,
    ];
    let resp = response_header(350, ADS_CMD_READ, 7, (8 + data.len()) as u32);
    let rpl = read_resp_payload(0, &data);
    let ev = decode_response(&resp, &rpl, &pending).unwrap();
    assert_eq!(
        ev,
        DiagEvent::TaskStats {
            task_port: 350,
            type_marker: TASK_MARKER_PLC,
            cycle_counter: 0x0307,
            cpu_ticks_100ns: 0xcfb9_2e65,
            exec_ticks_100ns: 0x8b59_768a,
        }
    );
}

#[test]
fn task_stats_idle_marker() {
    // Captured from port 340 (I/O idle @ 1 ms):
    // 69 50 0b 00 2a 56 d6 07 bf b9 72 ed 00 00 00 00
    let req = request_header(340, ADS_CMD_READ, 8, 12);
    let pl = read_req_payload(IG_RT_SYSTEM, IO_TASK_STATS, 16);
    let (_, pending) = decode_request(&req, &pl).unwrap();

    let data = [
        0x69, 0x50, 0x0b, 0x00, 0x2a, 0x56, 0xd6, 0x07, 0xbf, 0xb9, 0x72, 0xed, 0x00, 0x00,
        0x00, 0x00,
    ];
    let resp = response_header(340, ADS_CMD_READ, 8, (8 + data.len()) as u32);
    let rpl = read_resp_payload(0, &data);
    let ev = decode_response(&resp, &rpl, &pending).unwrap();
    match ev {
        DiagEvent::TaskStats {
            task_port,
            type_marker,
            ..
        } => {
            assert_eq!(task_port, 340);
            assert_eq!(type_marker, TASK_MARKER_IDLE);
        }
        _ => panic!("expected TaskStats"),
    }
}

#[test]
fn rt_usage_decodes_from_real_capture() {
    // Captured from rt_run.log (port 200 = R0_REALTIME):
    // 24-byte payload, fields: peak=12, latency=250, cpu%=7, scale=100.
    let req = request_header(AMSPORT_R0_REALTIME, ADS_CMD_READ, 99, 12);
    let pl = read_req_payload(IG_RT_USAGE, IO_RT_USAGE, 1536);
    let (_, pending) = decode_request(&req, &pl).unwrap();

    let data = [
        0x00, 0x00, 0x00, 0x00, 0x0c, 0x00, 0x00, 0x00, 0xfa, 0x00, 0x00, 0x00, 0x00, 0x00,
        0x00, 0x00, 0x07, 0x00, 0x00, 0x00, 0x64, 0x00, 0x00, 0x00,
    ];
    let resp = response_header(
        AMSPORT_R0_REALTIME,
        ADS_CMD_READ,
        99,
        (8 + data.len()) as u32,
    );
    let rpl = read_resp_payload(0, &data);
    let ev = decode_response(&resp, &rpl, &pending).unwrap();
    assert_eq!(
        ev,
        DiagEvent::RtUsage {
            peak_latency_us: 12,
            system_latency_us: 250,
            cpu_percent: 7,
        }
    );
}

#[test]
fn rt_usage_rejects_short_response() {
    // IDE over-allocates rsz=1536; real responses are 24 bytes. An error
    // response with rlen=0 must not yield a DiagEvent.
    let req = request_header(AMSPORT_R0_REALTIME, ADS_CMD_READ, 100, 12);
    let pl = read_req_payload(IG_RT_USAGE, IO_RT_USAGE, 1536);
    let (_, pending) = decode_request(&req, &pl).unwrap();
    let resp = response_header(AMSPORT_R0_REALTIME, ADS_CMD_READ, 100, 8);
    let rpl = read_resp_payload(0, &[]);
    assert!(decode_response(&resp, &rpl, &pending).is_none());
}

#[test]
fn unknown_read_returns_none() {
    let req = request_header(852, ADS_CMD_READ, 1, 12);
    let pl = read_req_payload(0xdead, 0xbeef, 16);
    assert!(decode_request(&req, &pl).is_none());
}

#[test]
fn read_response_with_error_result_returns_none() {
    let req = request_header(100, ADS_CMD_READ, 5, 12);
    let pl = read_req_payload(IG_RT_SYSTEM, IO_EXCEED_COUNTER, 4);
    let (_, pending) = decode_request(&req, &pl).unwrap();
    let resp = response_header(100, ADS_CMD_READ, 5, 8);
    // result = 0x701 (ADSERR_DEVICE_BUSY etc.)
    let mut rpl = Vec::new();
    rpl.extend_from_slice(&0x701_u32.to_le_bytes());
    rpl.extend_from_slice(&0_u32.to_le_bytes());
    assert!(decode_response(&resp, &rpl, &pending).is_none());
}

#[test]
fn cycle_counter_wraparound_is_safe() {
    let before = 0xFFFE_u16;
    let after = 0x0001_u16;
    assert_eq!(after.wrapping_sub(before), 3);
}

#[test]
fn requests_are_no_responses() {
    let req = request_header(100, ADS_CMD_READ, 42, 12);
    let pl = read_req_payload(IG_RT_SYSTEM, IO_EXCEED_COUNTER, 4);
    let (_, pending) = decode_request(&req, &pl).unwrap();
    assert!(decode_response(&req, &read_resp_payload(0, &[1, 0, 0, 0]), &pending).is_none());
    let resp = response_header(100, ADS_CMD_READ, 42, 12);
    assert!(decode_request(&resp, &pl).is_none());
}

#[test]
fn statistics_come_in_wire_order() {
    let names: Vec<&str> = metric_stat_order().iter().map(|(_, name)| *name).collect();
    assert_eq!(names[..4], ["min", "max", "mean", "sum"]);
    for (i, (bit, _)) in metric_stat_order().iter().enumerate() {
        assert_eq!(*bit, 1 << i);
    }
}

#[test]
fn refused_writes_are_no_resets() {
    let req = request_header(100, ADS_CMD_WRITE, 5, 16);
    let pl = write_req_payload(IG_RT_SYSTEM, IO_EXCEED_COUNTER, &[0, 0, 0, 0]);
    let (_, pending) = decode_request(&req, &pl).unwrap();
    let resp = response_header(100, ADS_CMD_WRITE, 5, 4);
    assert_eq!(decode_response(&resp, &0u32.to_le_bytes(), &pending), Some(DiagEvent::ExceedReset));
    assert_eq!(decode_response(&resp, &0x701u32.to_le_bytes(), &pending), None);
    assert_eq!(decode_response(&resp, &[0, 0, 0], &pending), None);
    assert_eq!(decode_response(&resp, &[], &pending), None);
    let mut failed = response_header(100, ADS_CMD_WRITE, 5, 4);
    failed.error_code = 7;
    assert_eq!(decode_response(&failed, &0u32.to_le_bytes(), &pending), None);
}

#[test]
fn headers_with_an_error_say_nothing() {
    let req = request_header(100, ADS_CMD_READ, 5, 12);
    let pl = read_req_payload(IG_RT_SYSTEM, IO_EXCEED_COUNTER, 4);
    let (_, pending) = decode_request(&req, &pl).unwrap();
    let mut resp = response_header(100, ADS_CMD_READ, 5, 12);
    let rpl = read_resp_payload(0, &[9, 0, 0, 0]);
    assert_eq!(decode_response(&resp, &rpl, &pending), Some(DiagEvent::ExceedCounter { value: 9 }));
    resp.error_code = 0x745;
    assert_eq!(decode_response(&resp, &rpl, &pending), None);
}
