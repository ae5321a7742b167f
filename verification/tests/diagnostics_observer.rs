use tc_otel::ams::{AmsHeader, AmsNetId, ADS_CMD_READ, ADS_CMD_WRITE, ADS_STATE_REQUEST};
use tc_otel::diagnostics::{
    DiagEvent, IG_RT_SYSTEM, IG_RT_USAGE, IO_EXCEED_COUNTER, IO_RT_USAGE, IO_TASK_STATS,
};
use tc_otel::diagnostics_observer::{DiagnosticsObserver, PENDING_TTL_NANOS};
use tc_otel::time::Tick;

const NOW: Tick = Tick { nanos: 1_000_000_000 };

/// ADS state-flags for a successful response frame (response bit + TCP bit).
const RESPONSE_OK: u16 = 0x0005;

fn net(a: [u8; 6]) -> AmsNetId {
    AmsNetId::from_bytes(a)
}

fn req_header(target_port: u16, cmd: u16, invoke: u32) -> AmsHeader {
    AmsHeader {
        target_net_id: net([10, 10, 10, 10, 1, 1]),
        target_port,
        source_net_id: net([75, 3, 166, 18, 1, 1]),
        source_port: 43568,
        command_id: cmd,
        state_flags: ADS_STATE_REQUEST,
        data_length: 0,
        error_code: 0,
        invoke_id: invoke,
    }
}

fn resp_header(source_port: u16, cmd: u16, invoke: u32) -> AmsHeader {
    AmsHeader {
        target_net_id: net([75, 3, 166, 18, 1, 1]),
        target_port: 43568,
        source_net_id: net([10, 10, 10, 10, 1, 1]),
        source_port,
        command_id: cmd,
        state_flags: RESPONSE_OK,
        data_length: 0,
        error_code: 0,
        invoke_id: invoke,
    }
}

fn read_req_pl(ig: u32, io: u32, size: u32) -> Vec<u8> {
    [ig.to_le_bytes(), io.to_le_bytes(), size.to_le_bytes()].concat()
}

fn read_resp_pl(result: u32, data: &[u8]) -> Vec<u8> {
    let mut v = Vec::with_capacity(8 + data.len());
    v.extend_from_slice(&result.to_le_bytes());
    v.extend_from_slice(&(data.len() as u32).to_le_bytes());
    v.extend_from_slice(data);
    v
}

fn write_req_pl(ig: u32, io: u32, data: &[u8]) -> Vec<u8> {
    let mut v = Vec::with_capacity(12 + data.len());
    v.extend_from_slice(&ig.to_le_bytes());
    v.extend_from_slice(&io.to_le_bytes());
    v.extend_from_slice(&(data.len() as u32).to_le_bytes());
    v.extend_from_slice(data);
    v
}

#[test]
fn correlates_read_request_and_response() {
    let mut obs = DiagnosticsObserver::new(NOW);

    let req_h = req_header(100, ADS_CMD_READ, 77);
    let req_pl = read_req_pl(IG_RT_SYSTEM, IO_EXCEED_COUNTER, 4);
    assert_eq!(obs.feed(&req_h, &req_pl, NOW), None);
    assert_eq!(obs.pending_len(), 1);

    let resp_h = resp_header(100, ADS_CMD_READ, 77);
    let resp_pl = read_resp_pl(0, &0x1234_u32.to_le_bytes());
    assert_eq!(
        obs.feed(&resp_h, &resp_pl, NOW),
        Some(DiagEvent::ExceedCounter { value: 0x1234 })
    );
    assert_eq!(obs.pending_len(), 0, "response must drain pending entry");
}

#[test]
fn task_stats_flow_emits_event() {
    let mut obs = DiagnosticsObserver::new(NOW);
    let req_h = req_header(350, ADS_CMD_READ, 99);
    let req_pl = read_req_pl(IG_RT_SYSTEM, IO_TASK_STATS, 16);
    obs.feed(&req_h, &req_pl, NOW);

    let data = [
        0x07, 0x03, 0x71, 0x00, 0x65, 0x2e, 0xb9, 0xcf, 0x8a, 0x76, 0x59, 0x8b, 0x00, 0x00,
        0x00, 0x00,
    ];
    let resp_h = resp_header(350, ADS_CMD_READ, 99);
    let resp_pl = read_resp_pl(0, &data);
    let ev = obs.feed(&resp_h, &resp_pl, NOW).unwrap();
    assert!(matches!(ev, DiagEvent::TaskStats { task_port: 350, .. }));
}

#[test]
fn rt_usage_flow_emits_event() {
    let mut obs = DiagnosticsObserver::new(NOW);
    let req_h = req_header(200, ADS_CMD_READ, 50);
    let req_pl = read_req_pl(IG_RT_USAGE, IO_RT_USAGE, 1536);
    obs.feed(&req_h, &req_pl, NOW);

    let data = [
        0x00, 0x00, 0x00, 0x00, 0x0c, 0x00, 0x00, 0x00, 0xfa, 0x00, 0x00, 0x00, 0x00, 0x00,
        0x00, 0x00, 0x07, 0x00, 0x00, 0x00, 0x64, 0x00, 0x00, 0x00,
    ];
    let resp_h = resp_header(200, ADS_CMD_READ, 50);
    let resp_pl = read_resp_pl(0, &data);
    let ev = obs.feed(&resp_h, &resp_pl, NOW).unwrap();
    assert!(matches!(
        ev,
        DiagEvent::RtUsage {
            cpu_percent: 7,
            system_latency_us: 250,
            peak_latency_us: 12
        }
    ));
}

#[test]
fn write_request_emits_without_response() {
    let mut obs = DiagnosticsObserver::new(NOW);
    let req_h = req_header(100, ADS_CMD_WRITE, 1);
    let req_pl = write_req_pl(IG_RT_SYSTEM, IO_EXCEED_COUNTER, &[0, 0, 0, 0]);
    assert_eq!(obs.feed(&req_h, &req_pl, NOW), Some(DiagEvent::ExceedReset));
    assert_eq!(obs.pending_len(), 0, "writes shouldn't enter pending map");
}

#[test]
fn response_without_matching_request_is_ignored() {
    let mut obs = DiagnosticsObserver::new(NOW);
    let resp_h = resp_header(100, ADS_CMD_READ, 404);
    let resp_pl = read_resp_pl(0, &0x1234_u32.to_le_bytes());
    assert_eq!(obs.feed(&resp_h, &resp_pl, NOW), None);
}

#[test]
fn unknown_request_is_not_pended() {
    let mut obs = DiagnosticsObserver::new(NOW);
    let req_h = req_header(852, ADS_CMD_READ, 1);
    let req_pl = read_req_pl(0xdead, 0xbeef, 16);
    obs.feed(&req_h, &req_pl, NOW);
    assert_eq!(obs.pending_len(), 0);
}

#[test]
fn multiple_concurrent_invokes_demux_correctly() {
    let mut obs = DiagnosticsObserver::new(NOW);

    // Three concurrent reads on three task ports.
    for (port, invoke) in [(340, 1_u32), (350, 2), (351, 3)] {
        obs.feed(
            &req_header(port, ADS_CMD_READ, invoke),
            &read_req_pl(IG_RT_SYSTEM, IO_TASK_STATS, 16),
            NOW,
        );
    }
    assert_eq!(obs.pending_len(), 3);

    // Responses arrive out of order.
    let data = [0_u8; 16];
    let ev = obs
        .feed(&resp_header(351, ADS_CMD_READ, 3), &read_resp_pl(0, &data), NOW)
        .unwrap();
    assert!(matches!(ev, DiagEvent::TaskStats { task_port: 351, .. }));
    let ev = obs
        .feed(&resp_header(340, ADS_CMD_READ, 1), &read_resp_pl(0, &data), NOW)
        .unwrap();
    assert!(matches!(ev, DiagEvent::TaskStats { task_port: 340, .. }));
    let ev = obs
        .feed(&resp_header(350, ADS_CMD_READ, 2), &read_resp_pl(0, &data), NOW)
        .unwrap();
    assert!(matches!(ev, DiagEvent::TaskStats { task_port: 350, .. }));
    assert_eq!(obs.pending_len(), 0);
}

#[test]
fn gc_evicts_stale_pending_entries() {
    let mut obs = DiagnosticsObserver::new(NOW);
    obs.feed(
        &req_header(100, ADS_CMD_READ, 1),
        &read_req_pl(IG_RT_SYSTEM, IO_EXCEED_COUNTER, 4),
        NOW,
    );
    assert_eq!(obs.pending_len(), 1);

    obs.gc_now(Tick { nanos: NOW.nanos + PENDING_TTL_NANOS + 1_000_000_000 });
    assert_eq!(obs.pending_len(), 0);
}

#[test]
fn gc_keeps_fresh_entries() {
    let mut obs = DiagnosticsObserver::new(NOW);
    obs.feed(
        &req_header(100, ADS_CMD_READ, 1),
        &read_req_pl(IG_RT_SYSTEM, IO_EXCEED_COUNTER, 4),
        NOW,
    );
    obs.gc_now(Tick { nanos: NOW.nanos + PENDING_TTL_NANOS - 1 });
    assert_eq!(obs.pending_len(), 1);
}
