use tc_otel::keymap::KeyMap;
use tc_otel::listener::AdsListener;
use tc_otel::models::LogLevel;
use tc_otel::protocol::{AdsLogEntry, AdsProtocolVersion};
use tc_otel::time::Timestamp;

const NOW: Timestamp = Timestamp { secs: 1_700_000_000, nanos: 0 };

#[test]
fn test_ads_to_log_entry_conversion() {
    let ads_entry = AdsLogEntry {
        version: AdsProtocolVersion::V1,
        message: "Test message".to_string(),
        logger: "test.logger".to_string(),
        level: LogLevel::Info,
        plc_timestamp: NOW,
        clock_timestamp: NOW,
        task_index: 1,
        task_name: "Task1".to_string(),
        task_cycle_counter: 100,
        app_name: "TestApp".to_string(),
        project_name: "TestProject".to_string(),
        online_change_count: 0,
        arguments: KeyMap::new(),
        context: KeyMap::new(),
        trace_id: [0; 16],
        span_id: [0; 8],
    };

    let entry = AdsListener::ads_to_log_entry(ads_entry, "192.168.1.100", 50123);

    assert_eq!(entry.source, "192.168.1.100");
    assert_eq!(entry.task_index, 1);
    assert_eq!(entry.project_name, "TestProject");
}

#[test]
fn messages_are_answered_with_a_byte() {
    let (entry, answer) = AdsListener::on_message(&[9, 9, 9], "10.0.0.1", 7, NOW);
    assert!(entry.is_none());
    let mut message = vec![1u8, 2, b'h', b'i', 1, b'l', 4, 0];
    message.extend_from_slice(&[0; 16]);
    message.extend_from_slice(&3i32.to_le_bytes());
    message.extend_from_slice(&[1, b't']);
    message.extend_from_slice(&9u32.to_le_bytes());
    message.extend_from_slice(&[1, b'a', 1, b'p']);
    message.extend_from_slice(&2u32.to_le_bytes());
    message.push(0);
    let (entry, other) = AdsListener::on_message(&message, "10.0.0.1", 7, NOW);
    let entry = entry.unwrap();
    assert_ne!(answer, other);
    assert_eq!(entry.hostname, "plc-7");
    assert_eq!(entry.message, "hi");
    assert_eq!(entry.level, LogLevel::Error);
    assert_eq!(entry.plc_timestamp, NOW);
    assert_eq!(entry.online_change_count, 2);
}

#[test]
fn listeners_know_their_limits() {
    let listener = AdsListener::with_max_connections("0.0.0.0".to_string(), 16150, 3);
    assert_eq!(listener.connection_manager().max_connections(), 3);
    let plain = AdsListener::new("0.0.0.0".to_string(), 16150);
    assert_eq!(plain.connection_manager().max_connections(), 100);
}
