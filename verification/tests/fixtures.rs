use tc_otel::fixtures::{AdsFixtures, LogEntryFixtures};
use tc_otel::models::{JsonScalar, LogLevel, Lreal};
use tc_otel::parser::AdsParser;
use tc_otel::time::Timestamp;

#[test]
fn test_simple_fixture() {
    let entry = LogEntryFixtures::simple_message();
    assert_eq!(entry.message, "Simple log message");
    assert!(entry.arguments.is_empty());
    assert!(entry.context.is_empty());
}

#[test]
fn test_typical_fixture() {
    let entry = LogEntryFixtures::typical_message();
    assert_eq!(entry.arguments.len(), 3);
    assert_eq!(entry.context.len(), 3);
}

#[test]
fn test_ads_minimal_roundtrip() {
    let data = AdsFixtures::minimal_ads_message();
    assert!(!data.is_empty());
    assert_eq!(data[0], 0x01); // version
}

#[test]
fn complex_and_counted_fixtures() {
    let entry = LogEntryFixtures::complex_message();
    assert_eq!(entry.arguments.len(), 10);
    assert_eq!(entry.context.len(), 14);
    assert_eq!(entry.arguments.get(&3), Some(&JsonScalar::Text("param3".to_string())));
    assert_eq!(entry.arguments.get(&9), Some(&JsonScalar::Unsigned(9)));
    assert_eq!(
        entry.context.get(&"retry_count".to_string()),
        Some(&JsonScalar::Text("retry_count-value-12".to_string()))
    );
    let entry = LogEntryFixtures::with_counts(2, 12);
    assert_eq!(entry.message, "Message with 2 args and 12 context items");
    assert_eq!(entry.arguments.len(), 2);
    assert_eq!(entry.context.len(), 12);
    assert_eq!(
        entry.context.get(&"ctx_11".to_string()),
        Some(&JsonScalar::Text("value_11".to_string()))
    );
    assert_eq!(
        LogEntryFixtures::typical_message().arguments.get(&1),
        Some(&JsonScalar::Lreal(Lreal(85.5_f64.to_bits())))
    );
}

#[test]
fn messages_hold_their_texts() {
    let data = AdsFixtures::minimal_ads_message();
    assert_eq!(data[1], 12);
    assert_eq!(&data[2..14], b"Test message");
    assert_eq!(&data[14..19], b"\x04test");
    assert_eq!(data[19..21], [2, 0]);
    assert_eq!(*data.last().unwrap(), 0);
    let data = AdsFixtures::typical_ads_message();
    let n = data.len();
    assert_eq!(data[n - 9..n - 1], 85.5_f64.to_le_bytes());
}

#[test]
fn the_minimal_message_is_valid() {
    let e = AdsParser::parse(&AdsFixtures::minimal_ads_message()).unwrap();
    assert_eq!(e.message, "Test message");
    assert_eq!(e.logger, "test");
    assert_eq!(e.level, LogLevel::Info);
    assert_eq!(e.task_index, 1);
    assert_eq!(e.task_name, "Task1");
    assert_eq!(e.task_cycle_counter, 100);
    assert_eq!(e.app_name, "App1");
    assert_eq!(e.project_name, "Proj1");
    assert_eq!(e.online_change_count, 0);
    assert!(e.arguments.is_empty());
    assert!(e.context.is_empty());
    assert_eq!(AdsParser::parse_all(&AdsFixtures::minimal_ads_message()).unwrap().entries.len(), 1);
}

#[test]
fn the_typical_message_is_valid() {
    let now = Timestamp { secs: 1_700_000_000, nanos: 5 };
    let e = AdsParser::parse_at(&AdsFixtures::typical_ads_message(), now).unwrap();
    assert_eq!(e.message, "Motor {m} temp is {t}");
    assert_eq!(e.logger, "motors");
    assert_eq!(e.level, LogLevel::Warn);
    assert_eq!(e.plc_timestamp, now);
    assert_eq!(e.clock_timestamp, now);
    assert_eq!(e.task_index, 2);
    assert_eq!(e.task_name, "MotorTask");
    assert_eq!(e.task_cycle_counter, 5000);
    assert_eq!(e.app_name, "MotorControl");
    assert_eq!(e.project_name, "IndustrialApp");
    assert_eq!(e.online_change_count, 1);
    assert_eq!(e.arguments.len(), 2);
    assert_eq!(e.arguments.get(&0), Some(&JsonScalar::Text("MOT-001".to_string())));
    assert_eq!(e.arguments.get(&1), Some(&JsonScalar::Lreal(Lreal(85.5_f64.to_bits()))));
    assert!(e.context.is_empty());
}
