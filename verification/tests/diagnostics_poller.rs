use tc_otel::ams::{
    AmsHeader, AmsNetId, ADS_CMD_READ, ADS_CMD_READ_DEVICE_INFO, ADS_STATE_REQUEST, ADS_STATE_RESPONSE,
};
use tc_otel::diagnostics::{DiagEvent, IG_RT_SYSTEM, IG_RT_USAGE, IO_EXCEED_COUNTER, IO_TASK_STATS};
use tc_otel::diagnostics_poller::{
    build_polls_for_target, build_read_device_info_frame, build_read_frame, parse_device_info_name,
    DiagnosticsPoller, PollerConfig, TargetConfig, DEFAULT_RT_PORT, POLLER_SOURCE_PORT,
};
use tc_otel::keymap::KeyMap;
use tc_otel::time::{Duration, Tick};

fn net(a: [u8; 6]) -> AmsNetId {
    AmsNetId::from_bytes(a)
}

fn make_config() -> TargetConfig {
    TargetConfig {
        net_id: net([172, 28, 41, 37, 1, 1]),
        poll_interval: Duration::from_secs(1),
        exceed_counter: true,
        rt_usage: true,
        task_ports: vec![340, 350, 351],
        rt_port: DEFAULT_RT_PORT,
        task_names: KeyMap::new(),
    }
}

#[test]
fn read_frame_layout_matches_wire_format() {
    let source = net([10, 10, 10, 10, 1, 1]);
    let target = net([1, 2, 3, 4, 5, 6]);
    let frame = build_read_frame(
        source,
        POLLER_SOURCE_PORT,
        target,
        350,
        IG_RT_SYSTEM,
        IO_TASK_STATS,
        16,
        0xAABB,
    );
    assert_eq!(frame.len(), 32 + 12);

    // Parse it back to verify header fields are exactly what we expect.
    let header = AmsHeader::parse(&frame).unwrap();
    assert_eq!(header.target_net_id, target);
    assert_eq!(header.target_port, 350);
    assert_eq!(header.source_net_id, source);
    assert_eq!(header.source_port, POLLER_SOURCE_PORT);
    assert_eq!(header.command_id, ADS_CMD_READ);
    assert_eq!(header.state_flags, ADS_STATE_REQUEST);
    assert_eq!(header.data_length, 12);
    assert_eq!(header.invoke_id, 0xAABB);

    // Payload = IG || IO || size, all u32 LE.
    let body = &frame[32..];
    assert_eq!(
        u32::from_le_bytes(body[0..4].try_into().unwrap()),
        IG_RT_SYSTEM
    );
    assert_eq!(
        u32::from_le_bytes(body[4..8].try_into().unwrap()),
        IO_TASK_STATS
    );
    assert_eq!(u32::from_le_bytes(body[8..12].try_into().unwrap()), 16);
}

#[test]
fn full_poll_plan_covers_all_metrics() {
    let target = make_config();
    let mut ctr: u32 = 1;
    let polls = build_polls_for_target(&target, net([10, 10, 10, 10, 1, 1]), &mut ctr);
    // 1 exceed + 1 rt_usage + 3 task ports = 5 polls
    assert_eq!(polls.len(), 5);

    // Invoke IDs must be unique and sequential.
    let ids: Vec<u32> = polls.iter().map(|p| p.invoke_id).collect();
    assert_eq!(ids, vec![1, 2, 3, 4, 5]);

    // Exceed is first and targets the min task port.
    assert_eq!(polls[0].index_group, IG_RT_SYSTEM);
    assert_eq!(polls[0].index_offset, IO_EXCEED_COUNTER);
    assert_eq!(polls[0].target_port, 340);

    // RT-usage is second.
    assert_eq!(polls[1].index_group, IG_RT_USAGE);
    assert_eq!(polls[1].target_port, DEFAULT_RT_PORT);

    // Per-task polls follow in config order.
    assert_eq!(polls[2].target_port, 340);
    assert_eq!(polls[3].target_port, 350);
    assert_eq!(polls[4].target_port, 351);
    for p in &polls[2..] {
        assert_eq!(p.index_offset, IO_TASK_STATS);
        assert_eq!(p.read_size, 16);
    }
}

#[test]
fn disabled_metrics_are_skipped() {
    let mut target = make_config();
    target.exceed_counter = false;
    target.rt_usage = false;
    target.task_ports.clear();
    let mut ctr: u32 = 1;
    let polls = build_polls_for_target(&target, net([10, 10, 10, 10, 1, 1]), &mut ctr);
    assert!(polls.is_empty());
    assert_eq!(ctr, 1, "no invoke IDs consumed");
}

#[test]
fn task_only_config_skips_exceed_and_rt() {
    let mut target = make_config();
    target.exceed_counter = false;
    target.rt_usage = false;
    let mut ctr: u32 = 100;
    let polls = build_polls_for_target(&target, net([10, 10, 10, 10, 1, 1]), &mut ctr);
    assert_eq!(polls.len(), 3);
    for p in &polls {
        assert_eq!(p.index_group, IG_RT_SYSTEM);
        assert_eq!(p.index_offset, IO_TASK_STATS);
    }
}

#[test]
fn device_info_frame_has_empty_payload_and_cmd1() {
    let frame = build_read_device_info_frame(
        net([10, 10, 10, 10, 1, 1]),
        POLLER_SOURCE_PORT,
        net([1, 2, 3, 4, 5, 6]),
        350,
        0x42,
    );
    assert_eq!(frame.len(), 32);
    let header = AmsHeader::parse(&frame).unwrap();
    assert_eq!(header.command_id, ADS_CMD_READ_DEVICE_INFO);
    assert_eq!(header.data_length, 0);
    assert_eq!(header.invoke_id, 0x42);
}

#[test]
fn device_info_name_parses_zero_terminated_ascii() {
    // body = result(4)=0 + major(1) + minor(1) + version(2) + name(16)
    let mut body = vec![0, 0, 0, 0, 3, 1, 0x0e, 0x00];
    body.extend_from_slice(b"PlcTask\0\0\0\0\0\0\0\0\0");
    assert_eq!(parse_device_info_name(&body), Some("PlcTask".to_string()));
}

#[test]
fn device_info_name_rejects_error_result() {
    let mut body = vec![0x07, 0, 0, 0, 0, 0, 0, 0];
    body.extend_from_slice(b"ShouldNotReturn\0");
    assert_eq!(parse_device_info_name(&body), None);
}

#[test]
fn exceed_without_task_ports_falls_back_to_rt_port() {
    let mut target = make_config();
    target.rt_usage = false;
    target.task_ports.clear();
    target.rt_port = 500;
    let mut ctr: u32 = 1;
    let polls = build_polls_for_target(&target, net([10, 10, 10, 10, 1, 1]), &mut ctr);
    assert_eq!(polls.len(), 1);
    assert_eq!(polls[0].index_offset, IO_EXCEED_COUNTER);
    assert_eq!(polls[0].target_port, 500);
}

const START: Tick = Tick { nanos: 10_000_000_000 };

fn poller() -> DiagnosticsPoller {
    let config = PollerConfig {
        broker_host: "localhost".to_string(),
        broker_port: 1883,
        client_id: "test".to_string(),
        topic_prefix: "test".to_string(),
        local_net_id: net([10, 10, 10, 10, 1, 1]),
        targets: vec![make_config()],
    };
    DiagnosticsPoller::new(config, START)
}

#[test]
fn suspends_polling_when_push_seen_recently() {
    let mut poller = poller();
    let target_id = net([172, 28, 41, 37, 1, 1]);
    assert_eq!(poller.tick(0, START).len(), 5);
    poller.record_push(target_id, START);
    assert_eq!(poller.push_seen().get(&target_id), Some(&START));
    let soon = Tick { nanos: START.nanos + 1_000_000_000 };
    assert!(poller.tick(0, soon).is_empty());
    let late = Tick { nanos: START.nanos + 3_600_000_000_000 };
    assert_eq!(poller.tick(0, late).len(), 5);
}

#[test]
fn answered_polls_become_events() {
    let mut poller = poller();
    assert_eq!(poller.response_topic(), "test/10.10.10.10.1.1/ams/res");
    assert_eq!(poller.target_count(), 1);
    let sent = poller.tick(0, START);
    assert_eq!(sent[0].topic, "test/172.28.41.37.1.1/ams");
    let asked = AmsHeader::parse(&sent[0].frame).unwrap();
    let mut answer = asked.make_response(0);
    answer.data_length = 12;
    let mut frame = answer.serialize();
    frame.extend_from_slice(&[0, 0, 0, 0, 4, 0, 0, 0, 9, 0, 0, 0]);
    let (from, event) = poller.on_response(&frame, START).unwrap();
    assert_eq!(from, net([172, 28, 41, 37, 1, 1]));
    assert_eq!(event, DiagEvent::ExceedCounter { value: 9 });
    assert!(poller.on_response(&frame, START).is_none());
    assert_eq!(answer.state_flags, ADS_STATE_RESPONSE);
}

#[test]
fn device_names_are_trimmed_text() {
    let mut body = vec![0, 0, 0, 0, 3, 1, 0x0e, 0x00];
    body.extend_from_slice(b" Task 1 \0rubbish");
    assert_eq!(parse_device_info_name(&body), Some("Task 1".to_string()));
    assert_eq!(parse_device_info_name(&body[..23]), None);
    body[9] = 0xFF;
    assert_eq!(parse_device_info_name(&body), None);
    let mut blank = vec![0u8; 8];
    blank.extend_from_slice(&[b' '; 16]);
    assert_eq!(parse_device_info_name(&blank), None);
}
