use chrono::Utc;
use tc_otel::error::AdsError;
use tc_otel::models::{JsonScalar, LogLevel, Lreal, Real, SpanKind, SpanStatusCode};
use tc_otel::parser::{AdsParser, ParseResult};
use tc_otel::protocol::AdsProtocolVersion;
use tc_otel::reader::BytesReader;
use tc_otel::time::Timestamp;

fn is_number(v: &JsonScalar) -> bool {
    matches!(
        v,
        JsonScalar::Unsigned(_) | JsonScalar::Negative(_) | JsonScalar::Real(_) | JsonScalar::Lreal(_)
    )
}

// Helper function to build test payloads
/// Build test payload matching real PLC FB_LogEntry format:
/// - Strings: 1-byte length prefix (u8) + data
/// - Level: 2 bytes (u16 LE, _WriteUInt)
/// - Timestamps: 8 bytes each (FILETIME)
/// - task_index: 4 bytes (i32, _WriteDInt)
/// - cycle_counter: 4 bytes (u32, _WriteUDInt)
/// - online_change_count: 4 bytes (u32, _WriteUDInt)
fn build_test_payload(message: &str, logger: &str, level: u8) -> Vec<u8> {
    let mut payload = vec![1]; // version byte

    // Message (1-byte len + data)
    payload.push(message.len() as u8);
    payload.extend_from_slice(message.as_bytes());

    // Logger (1-byte len + data)
    payload.push(logger.len() as u8);
    payload.extend_from_slice(logger.as_bytes());

    // Level (2 bytes, u16 LE)
    payload.extend_from_slice(&(level as u16).to_le_bytes());

    // Timestamps (FILETIME: 100-ns intervals since 1601-01-01)
    let unix_now = Utc::now().timestamp() as u64;
    let filetime = (unix_now * 10_000_000) + 116444736000000000;
    payload.extend_from_slice(&filetime.to_le_bytes()); // plc_timestamp
    payload.extend_from_slice(&filetime.to_le_bytes()); // clock_timestamp

    // Task metadata
    payload.extend_from_slice(&1i32.to_le_bytes()); // task_index (_WriteDInt)
    let task_name = "MainTask";
    payload.push(task_name.len() as u8); // 1-byte string len
    payload.extend_from_slice(task_name.as_bytes());
    payload.extend_from_slice(&100u32.to_le_bytes()); // cycle_counter (_WriteUDInt)

    // App metadata
    let app_name = "TestApp";
    payload.push(app_name.len() as u8);
    payload.extend_from_slice(app_name.as_bytes());

    let project_name = "TestProject";
    payload.push(project_name.len() as u8);
    payload.extend_from_slice(project_name.as_bytes());

    payload.extend_from_slice(&0u32.to_le_bytes()); // online_change_count

    // End marker
    payload.push(0);

    payload
}

#[test]
fn test_bytes_reader() {
    let data = vec![1, 2, 3, 4, 5];
    let mut reader = BytesReader::new(&data);
    assert_eq!(reader.read_u8().unwrap(), 1);
    assert_eq!(reader.remaining(), 4);
}

#[test]
fn test_parse_minimal_log_entry() {
    let payload = build_test_payload("Test message", "test.logger", 2);
    let result = AdsParser::parse(&payload);
    assert!(result.is_ok());

    let entry = result.unwrap();
    assert_eq!(entry.message, "Test message");
    assert_eq!(entry.logger, "test.logger");
    assert_eq!(entry.level, LogLevel::Info);
    assert_eq!(entry.version, AdsProtocolVersion::V1);
}

#[test]
fn test_parse_with_all_log_levels() {
    let levels = vec![
        (0, LogLevel::Trace),
        (1, LogLevel::Debug),
        (2, LogLevel::Info),
        (3, LogLevel::Warn),
        (4, LogLevel::Error),
        (5, LogLevel::Fatal),
    ];

    for (level_byte, expected_level) in levels {
        let payload = build_test_payload("Test", "logger", level_byte);
        let entry = AdsParser::parse(&payload).unwrap();
        assert_eq!(
            entry.level, expected_level,
            "Level mismatch for byte {}",
            level_byte
        );
    }
}

#[test]
fn test_parse_empty_strings() {
    let payload = build_test_payload("", "", 2);
    let result = AdsParser::parse(&payload);
    assert!(result.is_ok());

    let entry = result.unwrap();
    assert_eq!(entry.message, "");
    assert_eq!(entry.logger, "");
}

#[test]
fn test_parse_string_encoding_utf8() {
    let payload = build_test_payload("Hello 世界 🌍", "logger.café", 2);
    let result = AdsParser::parse(&payload);
    assert!(result.is_ok());

    let entry = result.unwrap();
    assert_eq!(entry.message, "Hello 世界 🌍");
    assert_eq!(entry.logger, "logger.café");
}

#[test]
fn test_parse_invalid_version() {
    let mut payload = vec![255]; // Invalid version
    payload.push(1); // message length (1 byte)
    payload.push(b'A');

    let result = AdsParser::parse(&payload);
    assert!(result.is_err());
    match result {
        Err(AdsError::InvalidVersion(v)) => assert_eq!(v, 255),
        _ => panic!("Expected InvalidVersion error"),
    }
}

#[test]
fn test_parse_invalid_log_level() {
    let mut payload = vec![1]; // version
    payload.push(4); // message length (1 byte)
    payload.extend_from_slice(b"test");
    payload.push(6); // logger length (1 byte)
    payload.extend_from_slice(b"logger");
    payload.extend_from_slice(&99u16.to_le_bytes()); // Invalid level (2 bytes)

    let result = AdsParser::parse(&payload);
    assert!(result.is_err());
}

#[test]
fn test_parse_incomplete_message() {
    let payload = vec![1, 0, 5]; // Version + incomplete string length
    let result = AdsParser::parse(&payload);
    assert!(result.is_err());
    match result {
        Err(AdsError::IncompleteMessage { .. }) => (),
        _ => panic!("Expected IncompleteMessage error"),
    }
}

#[test]
fn test_parse_buffer_overflow_detection() {
    let mut payload = vec![1]; // version
    payload.push(255); // Claims 255 byte message (1 byte length)
    payload.extend_from_slice(b"short"); // But only provides 5 bytes

    let result = AdsParser::parse(&payload);
    assert!(result.is_err());
}

#[test]
fn test_filetime_conversion() {
    // Test conversion of FILETIME to Unix timestamp
    // FILETIME 132900000000000000 should convert to a valid Unix timestamp
    let payload = build_test_payload("Test", "logger", 2);
    let result = AdsParser::parse(&payload);
    assert!(result.is_ok());

    let entry = result.unwrap();
    // Verify the timestamps are reasonable (within a few seconds of now)
    let now = Utc::now();
    let diff = (now.timestamp() - entry.plc_timestamp.secs).abs();
    assert!(
        diff < 10,
        "Parsed timestamp should be close to now, diff: {} seconds",
        diff
    );
}

#[test]
fn test_parse_large_message() {
    // Create a message up to 255 bytes (max for 1-byte length prefix)
    let large_message = "x".repeat(255);
    let payload = build_test_payload(&large_message, "logger", 2);
    let result = AdsParser::parse(&payload);
    assert!(result.is_ok());

    let entry = result.unwrap();
    assert_eq!(entry.message.len(), 255);
}

#[test]
fn test_bytes_reader_remaining() {
    let data = vec![1, 2, 3, 4, 5];
    let mut reader = BytesReader::new(&data);
    assert_eq!(reader.remaining(), 5);
    let _ = reader.read_u8();
    assert_eq!(reader.remaining(), 4);
    let _ = reader.read_bytes(2);
    assert_eq!(reader.remaining(), 2);
}

#[test]
fn test_bytes_reader_read_i32() {
    let data: Vec<u8> = 42i32.to_le_bytes().to_vec();
    let mut reader = BytesReader::new(&data);
    assert_eq!(reader.read_i32().unwrap(), 42);
}

#[test]
fn test_bytes_reader_read_u32() {
    let data: Vec<u8> = 1000u32.to_le_bytes().to_vec();
    let mut reader = BytesReader::new(&data);
    assert_eq!(reader.read_u32().unwrap(), 1000);
}

#[test]
fn test_bytes_reader_read_string() {
    let text = "Hello";
    let mut data = vec![text.len() as u8]; // 1-byte length prefix
    data.extend_from_slice(text.as_bytes());

    let mut reader = BytesReader::new(&data);
    assert_eq!(reader.read_string().unwrap(), "Hello");
}

#[test]
fn test_bytes_reader_invalid_utf8() {
    let mut data = vec![2u8]; // 1-byte length prefix
    data.push(0xFF);
    data.push(0xFF); // Invalid UTF-8 sequence

    let mut reader = BytesReader::new(&data);
    let result = reader.read_string();
    assert!(result.is_err());
}

#[test]
fn test_parse_with_positional_arguments() {
    let mut payload = build_test_payload("User {0} logged in", "auth.logger", 2);

    // Add positional argument (value type 8 = DINT)
    // Remove the end marker first
    payload.pop();
    payload.push(1); // type_id = argument
    payload.push(0); // index = 0
    payload.extend_from_slice(&8i16.to_le_bytes()); // value type = DINT (2 bytes)
    payload.extend_from_slice(&123i32.to_le_bytes());
    payload.push(0); // end marker

    let entry = AdsParser::parse(&payload).unwrap();
    assert_eq!(entry.arguments.len(), 1);
    assert_eq!(entry.arguments.get(&0).unwrap(), &JsonScalar::Unsigned(123));
}

#[test]
fn test_parse_with_context_variables() {
    let mut payload = build_test_payload("Test", "logger", 2);

    // Add context variable
    payload.pop(); // Remove end marker
    payload.push(2); // type_id = context
    payload.push(1); // scope = 1
    let ctx_name = "request_id";
    payload.push(ctx_name.len() as u8); // 1-byte length for string name
    payload.extend_from_slice(ctx_name.as_bytes());
    payload.extend_from_slice(&12i16.to_le_bytes()); // value type = STRING (2 bytes)
    let ctx_value = "req-12345";
    payload.push(ctx_value.len() as u8); // 1-byte length for string value
    payload.extend_from_slice(ctx_value.as_bytes());
    payload.push(0); // end marker

    let entry = AdsParser::parse(&payload).unwrap();
    assert_eq!(entry.context.len(), 1);
    assert_eq!(
        entry.context.get(&"scope_1_request_id".to_string()).unwrap(),
        &JsonScalar::Text("req-12345".to_string())
    );
}

#[test]
fn test_parse_multiple_arguments() {
    let mut payload = build_test_payload("Test {0} {1} {2}", "logger", 2);

    // Add multiple arguments
    payload.pop(); // Remove end marker

    // Argument 0: DINT 42
    payload.push(1); // type_id = argument
    payload.push(0); // index
    payload.extend_from_slice(&8i16.to_le_bytes()); // value type = DINT (2 bytes)
    payload.extend_from_slice(&42i32.to_le_bytes());

    // Argument 1: STRING "test"
    payload.push(1); // type_id = argument
    payload.push(1); // index
    payload.extend_from_slice(&12i16.to_le_bytes()); // value type = STRING (2 bytes)
    payload.push(4); // 1-byte length for "test"
    payload.extend_from_slice(b"test");

    // Argument 2: BOOL true
    payload.push(1); // type_id = argument
    payload.push(2); // index
    payload.extend_from_slice(&13i16.to_le_bytes()); // value type = BOOL (2 bytes)
    payload.push(1); // value = true

    payload.push(0); // end marker

    let entry = AdsParser::parse(&payload).unwrap();
    assert_eq!(entry.arguments.len(), 3);
    assert_eq!(entry.arguments.get(&0).unwrap(), &JsonScalar::Unsigned(42));
    assert_eq!(entry.arguments.get(&1).unwrap(), &JsonScalar::Text("test".to_string()));
    assert_eq!(entry.arguments.get(&2).unwrap(), &JsonScalar::Bool(true));
}

#[test]
fn test_parse_value_types() {
    let mut payload = build_test_payload("Test", "logger", 2);
    payload.pop(); // Remove end marker

    // Test null
    payload.push(1); // type_id = argument
    payload.push(0); // index
    payload.extend_from_slice(&0i16.to_le_bytes()); // type = null (2 bytes)

    payload.push(0); // end marker

    let entry = AdsParser::parse(&payload).unwrap();
    assert_eq!(entry.arguments.get(&0).unwrap(), &JsonScalar::Null);
}

#[test]
fn test_parse_float_argument() {
    let mut payload = build_test_payload("Test", "logger", 2);
    payload.pop(); // Remove end marker

    payload.push(1); // type_id = argument
    payload.push(0); // index
    payload.extend_from_slice(&5i16.to_le_bytes()); // value type = LREAL (2 bytes)
    payload.extend_from_slice(&3.14f64.to_le_bytes());

    payload.push(0); // end marker

    let entry = AdsParser::parse(&payload).unwrap();
    let value = entry.arguments.get(&0).unwrap();
    assert!(is_number(value));
}

// Additional edge case tests
#[test]
fn test_parse_max_u32_value() {
    let mut payload = build_test_payload("Test", "logger", 2);
    payload.pop(); // Remove end marker

    payload.push(1); // type_id = argument
    payload.push(0); // index
    payload.extend_from_slice(&8i16.to_le_bytes()); // value type = DINT (2 bytes)
    payload.extend_from_slice(&(u32::MAX as i32).to_le_bytes());

    payload.push(0); // end marker

    let entry = AdsParser::parse(&payload).unwrap();
    assert!(entry.arguments.contains_key(&0));
}

#[test]
fn test_parse_negative_numbers() {
    let mut payload = build_test_payload("Test", "logger", 2);
    payload.pop(); // Remove end marker

    payload.push(1); // type_id = argument
    payload.push(0); // index
    payload.extend_from_slice(&8i16.to_le_bytes()); // value type = DINT (2 bytes)
    payload.extend_from_slice(&(-42i32).to_le_bytes());

    payload.push(0); // end marker

    let entry = AdsParser::parse(&payload).unwrap();
    assert_eq!(entry.arguments.get(&0).unwrap(), &JsonScalar::Negative(-42));
}

#[test]
fn test_parse_long_context_name() {
    let mut payload = build_test_payload("Test", "logger", 2);
    payload.pop(); // Remove end marker

    payload.push(2); // type_id = context
    payload.push(1); // scope
    let long_name = "x".repeat(1000);
    payload.push(long_name.len() as u8); // 1-byte length for context name
    payload.extend_from_slice(long_name.as_bytes());
    payload.extend_from_slice(&12i16.to_le_bytes()); // value type = STRING (2 bytes)
    let value = "test";
    payload.push(value.len() as u8); // 1-byte length for value
    payload.extend_from_slice(value.as_bytes());

    payload.push(0); // end marker

    let entry = AdsParser::parse(&payload).unwrap();
    assert_eq!(entry.context.len(), 1);
}

#[test]
fn test_parse_many_arguments() {
    let mut payload = build_test_payload("Test", "logger", 2);
    payload.pop(); // Remove end marker

    // Add 32 arguments (the maximum allowed)
    for i in 0i32..32 {
        payload.push(1); // type_id = argument
        payload.push(i as u8); // index
        payload.extend_from_slice(&8i16.to_le_bytes()); // value type = DINT (2 bytes)
        payload.extend_from_slice(&i.to_le_bytes());
    }

    payload.push(0); // end marker

    let entry = AdsParser::parse(&payload).unwrap();
    assert_eq!(entry.arguments.len(), 32);
}

#[test]
fn test_parse_roundtrip_utf8_emoji() {
    let emoji_message = "System event 🎉 alert ⚠️ error ❌";
    let payload = build_test_payload(emoji_message, "logger", 2);
    let entry = AdsParser::parse(&payload).unwrap();
    assert_eq!(entry.message, emoji_message);
}

#[test]
fn test_parse_cjk_characters() {
    let cjk_message = "日本語メッセージ 中文信息 한국어 메시지";
    let payload = build_test_payload(cjk_message, "logger", 2);
    let entry = AdsParser::parse(&payload).unwrap();
    assert_eq!(entry.message, cjk_message);
}

#[test]
fn test_parse_control_characters() {
    let msg = "Message\twith\ttabs\nand\nnewlines";
    let payload = build_test_payload(msg, "logger", 2);
    let entry = AdsParser::parse(&payload).unwrap();
    assert_eq!(entry.message, msg);
}

#[test]
fn test_filetime_boundary_unix_epoch() {
    // Test timestamp conversion around Unix epoch boundaries
    let payload = build_test_payload("Test", "logger", 2);
    let entry = AdsParser::parse(&payload).unwrap();

    // Should have valid timestamps
    assert!(entry.plc_timestamp.secs > 0);
    assert!(entry.clock_timestamp.secs > 0);
}

#[test]
fn test_parse_mixed_argument_types() {
    let mut payload = build_test_payload("Test {0} {1} {2} {3} {4}", "logger", 2);
    payload.pop(); // Remove end marker

    // DINT 100
    payload.push(1); // type_id = argument
    payload.push(0); // index
    payload.extend_from_slice(&8i16.to_le_bytes()); // value type = DINT
    payload.extend_from_slice(&100i32.to_le_bytes());

    // LREAL 2.71828
    payload.push(1); // type_id = argument
    payload.push(1); // index
    payload.extend_from_slice(&5i16.to_le_bytes()); // value type = LREAL
    payload.extend_from_slice(&2.71828f64.to_le_bytes());

    // STRING "hello"
    payload.push(1); // type_id = argument
    payload.push(2); // index
    payload.extend_from_slice(&12i16.to_le_bytes()); // value type = STRING
    payload.push(5); // 1-byte length
    payload.extend_from_slice(b"hello");

    // BOOL true
    payload.push(1); // type_id = argument
    payload.push(3); // index
    payload.extend_from_slice(&13i16.to_le_bytes()); // value type = BOOL
    payload.push(1); // true

    // BOOL false
    payload.push(1); // type_id = argument
    payload.push(4); // index
    payload.extend_from_slice(&13i16.to_le_bytes()); // value type = BOOL
    payload.push(0); // false

    payload.push(0); // end marker

    let entry = AdsParser::parse(&payload).unwrap();
    assert_eq!(entry.arguments.len(), 5);
    assert!(is_number(entry.arguments.get(&0).unwrap()));
    assert!(is_number(entry.arguments.get(&1).unwrap()));
    assert!(matches!(entry.arguments.get(&2).unwrap(), JsonScalar::Text(_)));
    assert!(matches!(entry.arguments.get(&3).unwrap(), JsonScalar::Bool(_)));
    assert!(matches!(entry.arguments.get(&4).unwrap(), JsonScalar::Bool(_)));
}

// Tests for v2 protocol
#[test]
fn test_parse_v2_minimal() {
    let mut payload = Vec::new();
    payload.push(2); // type = v2

    // entry_length (placeholder, will be updated)
    let len_pos = payload.len();
    payload.extend_from_slice(&0u16.to_le_bytes());

    // Fixed header (27 - 3 = 24 bytes after entry_length)
    payload.push(2); // level = Info

    // Timestamps (FILETIME: 100-ns intervals)
    let filetime = (Utc::now().timestamp() as u64 * 10_000_000) + 116444736000000000;
    payload.extend_from_slice(&filetime.to_le_bytes()); // plc_timestamp
    payload.extend_from_slice(&filetime.to_le_bytes()); // clock_timestamp

    payload.push(1); // task_index
    payload.extend_from_slice(&100u32.to_le_bytes()); // cycle_counter
    payload.push(0); // arg_count
    payload.push(0); // context_count

    // Message string
    let msg = "Test v2 message";
    payload.push(msg.len() as u8);
    payload.extend_from_slice(msg.as_bytes());

    // Logger string (empty = global)
    payload.push(0);

    // Update entry_length
    let entry_len = (payload.len() - len_pos - 2) as u16;
    payload[len_pos..len_pos + 2].copy_from_slice(&entry_len.to_le_bytes());

    let result = AdsParser::parse_all(&payload).unwrap();
    assert_eq!(result.entries.len(), 1);
    assert_eq!(result.registrations.len(), 0);

    let entry = &result.entries[0];
    assert_eq!(entry.version, AdsProtocolVersion::V2);
    assert_eq!(entry.message, msg);
    assert_eq!(entry.level, LogLevel::Info);
}

#[test]
fn test_parse_v2_with_arguments() {
    let mut payload = Vec::new();
    payload.push(2); // type = v2

    let len_pos = payload.len();
    payload.extend_from_slice(&0u16.to_le_bytes());

    payload.push(2); // level = Info

    let filetime = (Utc::now().timestamp() as u64 * 10_000_000) + 116444736000000000;
    payload.extend_from_slice(&filetime.to_le_bytes());
    payload.extend_from_slice(&filetime.to_le_bytes());

    payload.push(1); // task_index
    payload.extend_from_slice(&100u32.to_le_bytes());
    payload.push(1); // arg_count = 1
    payload.push(0); // context_count = 0

    let msg = b"Test: {0}";
    payload.push(msg.len() as u8); // message length
    payload.extend_from_slice(msg);
    payload.push(0); // logger empty

    // Argument: DINT value (type_id = 8, which is standard type, not remapped)
    payload.push(8); // type_id (1 byte in v2)
    payload.extend_from_slice(&42i32.to_le_bytes());

    let entry_len = (payload.len() - len_pos - 2) as u16;
    payload[len_pos..len_pos + 2].copy_from_slice(&entry_len.to_le_bytes());

    let result = AdsParser::parse_all(&payload).unwrap();
    assert_eq!(result.entries.len(), 1);

    let entry = &result.entries[0];
    assert_eq!(entry.arguments.len(), 1);
    assert_eq!(entry.arguments.get(&1).unwrap(), &JsonScalar::Unsigned(42)); // V2: arg_idx+1
}

#[test]
fn test_parse_registration() {
    let mut payload = Vec::new();
    payload.push(3); // type = registration
    payload.push(5); // task_index

    let task_name = "MainTask";
    payload.push(task_name.len() as u8);
    payload.extend_from_slice(task_name.as_bytes());

    let app_name = "MyApp";
    payload.push(app_name.len() as u8);
    payload.extend_from_slice(app_name.as_bytes());

    let project_name = "MyProject";
    payload.push(project_name.len() as u8);
    payload.extend_from_slice(project_name.as_bytes());

    payload.extend_from_slice(&123u32.to_le_bytes()); // online_change_count

    let result = AdsParser::parse_all(&payload).unwrap();
    assert_eq!(result.entries.len(), 0);
    assert_eq!(result.registrations.len(), 1);

    let reg = &result.registrations[0];
    assert_eq!(reg.task_index, 5);
    assert_eq!(reg.task_name, task_name);
    assert_eq!(reg.app_name, app_name);
    assert_eq!(reg.project_name, project_name);
    assert_eq!(reg.online_change_count, 123);
}

#[test]
fn test_parse_mixed_v1_v2_registration() {
    let mut payload = Vec::new();

    // First: Registration (0x03)
    payload.push(3);
    payload.push(1); // task_index
    payload.push(4); // "Task"
    payload.extend_from_slice(b"Task");
    payload.push(3); // "App"
    payload.extend_from_slice(b"App");
    payload.push(4); // "Proj"
    payload.extend_from_slice(b"Proj");
    payload.extend_from_slice(&0u32.to_le_bytes());

    // Second: v1 entry
    let v1_payload = build_test_payload("V1 message", "v1.logger", 2);
    payload.extend_from_slice(&v1_payload);

    // Third: v2 entry
    payload.push(2); // type = v2
    let len_pos = payload.len();
    payload.extend_from_slice(&0u16.to_le_bytes());
    payload.push(3); // level = Warn
    let filetime = (Utc::now().timestamp() as u64 * 10_000_000) + 116444736000000000;
    payload.extend_from_slice(&filetime.to_le_bytes());
    payload.extend_from_slice(&filetime.to_le_bytes());
    payload.push(2); // task_index
    payload.extend_from_slice(&50u32.to_le_bytes());
    payload.push(0); // arg_count
    payload.push(0); // context_count
    payload.push(5); // "V2msg"
    payload.extend_from_slice(b"V2msg");
    payload.push(0); // logger empty

    let entry_len = (payload.len() - len_pos - 2) as u16;
    payload[len_pos..len_pos + 2].copy_from_slice(&entry_len.to_le_bytes());

    let result = AdsParser::parse_all(&payload).unwrap();
    assert_eq!(result.entries.len(), 2);
    assert_eq!(result.registrations.len(), 1);

    // Check registration
    assert_eq!(result.registrations[0].task_name, "Task");

    // Check v1 entry
    assert_eq!(result.entries[0].version, AdsProtocolVersion::V1);
    assert_eq!(result.entries[0].message, "V1 message");

    // Check v2 entry
    assert_eq!(result.entries[1].version, AdsProtocolVersion::V2);
    assert_eq!(result.entries[1].message, "V2msg");
    assert_eq!(result.entries[1].level, LogLevel::Warn);
}

#[test]
fn test_parse_v2_with_context() {
    let mut payload = Vec::new();
    payload.push(2); // type = v2

    let len_pos = payload.len();
    payload.extend_from_slice(&0u16.to_le_bytes());

    payload.push(2); // level
    let filetime = (Utc::now().timestamp() as u64 * 10_000_000) + 116444736000000000;
    payload.extend_from_slice(&filetime.to_le_bytes());
    payload.extend_from_slice(&filetime.to_le_bytes());

    payload.push(1); // task_index
    payload.extend_from_slice(&100u32.to_le_bytes());
    payload.push(0); // arg_count
    payload.push(1); // context_count = 1 (one scope group)

    payload.push(5); // message
    payload.extend_from_slice(b"Test!");
    payload.push(0); // logger empty

    // Context scope group
    payload.push(1); // scope = 1
    payload.push(1); // prop_count = 1 property in this scope

    // Property: request_id
    let prop_name = "request_id";
    payload.push(prop_name.len() as u8);
    payload.extend_from_slice(prop_name.as_bytes());
    payload.push(12); // type_id = STRING
    let prop_val = "req-123";
    payload.push(prop_val.len() as u8);
    payload.extend_from_slice(prop_val.as_bytes());

    let entry_len = (payload.len() - len_pos - 2) as u16;
    payload[len_pos..len_pos + 2].copy_from_slice(&entry_len.to_le_bytes());

    let result = AdsParser::parse_all(&payload).unwrap();
    assert_eq!(result.entries.len(), 1);

    let entry = &result.entries[0];
    assert_eq!(entry.context.len(), 1);
    assert!(entry.context.contains_key(&"scope_1_request_id".to_string()));
    assert_eq!(
        entry.context.get(&"scope_1_request_id".to_string()).unwrap(),
        &JsonScalar::Text("req-123".to_string())
    );
}

#[test]
fn test_parse_multiple_registrations() {
    let mut payload = Vec::new();

    // Two registrations for different tasks
    for task_idx in 0..2 {
        payload.push(3); // type = registration
        payload.push(task_idx); // task_index
        let task_name = format!("Task{}", task_idx);
        payload.push(task_name.len() as u8);
        payload.extend_from_slice(task_name.as_bytes());
        payload.push(3); // "App"
        payload.extend_from_slice(b"App");
        payload.push(4); // "Proj"
        payload.extend_from_slice(b"Proj");
        payload.extend_from_slice(&(task_idx as u32).to_le_bytes());
    }

    let result = AdsParser::parse_all(&payload).unwrap();
    assert_eq!(result.registrations.len(), 2);
    assert_eq!(result.registrations[0].task_index, 0);
    assert_eq!(result.registrations[1].task_index, 1);
}

#[test]
fn test_parse_v1_v1_entries_in_buffer() {
    // Two v1 entries in one buffer
    let mut payload = build_test_payload("First", "log1", 2);
    payload.pop(); // Remove end marker of first entry
    payload.push(0); // Add end marker between entries

    let second = build_test_payload("Second", "log2", 3);
    payload.extend_from_slice(&second);

    let result = AdsParser::parse_all(&payload).unwrap();
    assert_eq!(result.entries.len(), 2);
    assert_eq!(result.entries[0].message, "First");
    assert_eq!(result.entries[1].message, "Second");
}

// === Span parser tests ===

/// Build a minimal span payload for wire type 0x05.
/// Returns (payload, entry_length_offset) for tests that need to manipulate length.
fn build_span_payload(
    name: &str,
    kind: u8,
    status_code: u8,
    events: &[(
        &str,
        &[(&str, u8, &[u8])], // (event_name, &[(attr_key, type_id, value_bytes)])
    )],
    attrs: &[(&str, u8, &[u8])], // (attr_key, type_id, value_bytes)
) -> Vec<u8> {
    let mut payload = vec![5u8]; // type = span

    // entry_length placeholder
    let len_pos = payload.len();
    payload.extend_from_slice(&0u16.to_le_bytes());

    // trace_id (16 bytes)
    let trace_id: [u8; 16] = [
        0xab, 0xcd, 0xef, 0x12, 0x34, 0x56, 0x78, 0x90, 0xab, 0xcd, 0xef, 0x12, 0x34, 0x56,
        0x78, 0x90,
    ];
    payload.extend_from_slice(&trace_id);

    // span_id (8 bytes)
    let span_id: [u8; 8] = [0x12, 0x34, 0x56, 0x78, 0x90, 0xab, 0xcd, 0xef];
    payload.extend_from_slice(&span_id);

    // parent_span_id (8 bytes, zeros = root span)
    payload.extend_from_slice(&[0u8; 8]);

    // kind, status_code
    payload.push(kind);
    payload.push(status_code);

    // Timestamps (FILETIME)
    let filetime = (Utc::now().timestamp() as u64 * 10_000_000) + 116444736000000000;
    payload.extend_from_slice(&filetime.to_le_bytes()); // start_time
    payload.extend_from_slice(&filetime.to_le_bytes()); // end_time

    // task_index, cycle_counter
    payload.push(1); // task_index
    payload.extend_from_slice(&500u32.to_le_bytes()); // cycle_counter

    // event_count, attr_count
    payload.push(events.len() as u8);
    payload.push(attrs.len() as u8);

    // name string
    payload.push(name.len() as u8);
    payload.extend_from_slice(name.as_bytes());

    // status_message (empty)
    payload.push(0);

    // Events
    for (event_name, event_attrs) in events {
        payload.push(event_name.len() as u8);
        payload.extend_from_slice(event_name.as_bytes());
        payload.extend_from_slice(&filetime.to_le_bytes()); // event timestamp
        payload.push(event_attrs.len() as u8);

        for (key, type_id, value_bytes) in *event_attrs {
            payload.push(key.len() as u8);
            payload.extend_from_slice(key.as_bytes());
            payload.push(*type_id);
            payload.extend_from_slice(value_bytes);
        }
    }

    // Span attributes
    for (key, type_id, value_bytes) in attrs {
        payload.push(key.len() as u8);
        payload.extend_from_slice(key.as_bytes());
        payload.push(*type_id);
        payload.extend_from_slice(value_bytes);
    }

    // Update entry_length
    let entry_len = (payload.len() - len_pos - 2) as u16;
    payload[len_pos..len_pos + 2].copy_from_slice(&entry_len.to_le_bytes());

    payload
}

/// Helper to encode a string value for the test payload (type 12 = STRING)
fn string_attr_bytes(s: &str) -> Vec<u8> {
    let mut bytes = vec![s.len() as u8];
    bytes.extend_from_slice(s.as_bytes());
    bytes
}

#[test]
fn test_parse_span_minimal() {
    let payload = build_span_payload("motor_cycle", 0, 0, &[], &[]);

    let result = AdsParser::parse_all(&payload).unwrap();
    assert_eq!(result.entries.len(), 0);
    assert_eq!(result.registrations.len(), 0);
    assert_eq!(result.spans.len(), 1);

    let span = &result.spans[0];
    assert_eq!(span.name, "motor_cycle");
    assert_eq!(span.kind, SpanKind::Internal);
    assert_eq!(span.status_code, SpanStatusCode::Unset);
    assert_eq!(span.trace_id_hex(), "abcdef1234567890abcdef1234567890");
    assert_eq!(span.span_id_hex(), "1234567890abcdef");
    assert_eq!(span.parent_span_id_hex(), ""); // all zeros
    assert!(span.events.is_empty());
    assert!(span.attributes.is_empty());
    assert_eq!(span.task_index, 1);
    assert_eq!(span.task_cycle_counter, 500);
}

#[test]
fn test_parse_span_all_kinds() {
    for (kind_byte, expected_kind) in [
        (0u8, SpanKind::Internal),
        (1, SpanKind::Server),
        (2, SpanKind::Client),
        (3, SpanKind::Producer),
        (4, SpanKind::Consumer),
    ] {
        let payload = build_span_payload("test", kind_byte, 0, &[], &[]);
        let result = AdsParser::parse_all(&payload).unwrap();
        assert_eq!(
            result.spans[0].kind, expected_kind,
            "Kind mismatch for byte {}",
            kind_byte
        );
    }
}

#[test]
fn test_parse_span_all_status_codes() {
    for (status_byte, expected_status) in [
        (0u8, SpanStatusCode::Unset),
        (1, SpanStatusCode::Okay),
        (2, SpanStatusCode::Error),
    ] {
        let payload = build_span_payload("test", 0, status_byte, &[], &[]);
        let result = AdsParser::parse_all(&payload).unwrap();
        assert_eq!(
            result.spans[0].status_code, expected_status,
            "Status mismatch for byte {}",
            status_byte
        );
    }
}

#[test]
fn test_parse_span_with_state_machine_attributes() {
    let sm_name = string_attr_bytes("MotorController");
    let old_state = string_attr_bytes("IDLE");
    let new_state = string_attr_bytes("RUNNING");

    let attrs: Vec<(&str, u8, &[u8])> = vec![
        ("state_machine.name", 12, &sm_name),
        ("state_machine.transition.old_state", 12, &old_state),
        ("state_machine.transition.new_state", 12, &new_state),
    ];

    let payload = build_span_payload("state_machine_cycle", 0, 1, &[], &attrs);

    let result = AdsParser::parse_all(&payload).unwrap();
    let span = &result.spans[0];

    assert_eq!(span.name, "state_machine_cycle");
    assert_eq!(span.status_code, SpanStatusCode::Okay);
    assert_eq!(span.attributes.len(), 3);
    assert_eq!(
        span.attributes.get(&"state_machine.name".to_string()).unwrap(),
        &JsonScalar::Text("MotorController".to_string())
    );
    assert_eq!(
        span.attributes.get(&"state_machine.transition.old_state".to_string()).unwrap(),
        &JsonScalar::Text("IDLE".to_string())
    );
    assert_eq!(
        span.attributes.get(&"state_machine.transition.new_state".to_string()).unwrap(),
        &JsonScalar::Text("RUNNING".to_string())
    );
}

#[test]
fn test_parse_span_with_event() {
    let old_state = string_attr_bytes("IDLE");
    let new_state = string_attr_bytes("RUNNING");

    let event_attrs: Vec<(&str, u8, &[u8])> = vec![
        ("state_machine.transition.old_state", 12, &old_state),
        ("state_machine.transition.new_state", 12, &new_state),
    ];

    let events: Vec<(&str, &[(&str, u8, &[u8])])> =
        vec![("state_transition", event_attrs.as_slice())];

    let payload = build_span_payload("pump_cycle", 0, 0, &events, &[]);

    let result = AdsParser::parse_all(&payload).unwrap();
    let span = &result.spans[0];

    assert_eq!(span.events.len(), 1);
    assert_eq!(span.events[0].name, "state_transition");
    assert_eq!(span.events[0].attributes.len(), 2);
    assert_eq!(
        span.events[0].attributes.get(&"state_machine.transition.old_state".to_string()).unwrap(),
        &JsonScalar::Text("IDLE".to_string())
    );
    assert_eq!(
        span.events[0].attributes.get(&"state_machine.transition.new_state".to_string()).unwrap(),
        &JsonScalar::Text("RUNNING".to_string())
    );
}

#[test]
fn test_parse_span_with_multiple_events() {
    let old1 = string_attr_bytes("IDLE");
    let new1 = string_attr_bytes("STARTING");
    let old2 = string_attr_bytes("STARTING");
    let new2 = string_attr_bytes("RUNNING");

    let event1_attrs: Vec<(&str, u8, &[u8])> = vec![
        ("state_machine.transition.old_state", 12, &old1),
        ("state_machine.transition.new_state", 12, &new1),
    ];
    let event2_attrs: Vec<(&str, u8, &[u8])> = vec![
        ("state_machine.transition.old_state", 12, &old2),
        ("state_machine.transition.new_state", 12, &new2),
    ];

    let events: Vec<(&str, &[(&str, u8, &[u8])])> = vec![
        ("transition_1", event1_attrs.as_slice()),
        ("transition_2", event2_attrs.as_slice()),
    ];

    let payload = build_span_payload("motor_startup", 0, 0, &events, &[]);

    let result = AdsParser::parse_all(&payload).unwrap();
    let span = &result.spans[0];

    assert_eq!(span.events.len(), 2);
    assert_eq!(span.events[0].name, "transition_1");
    assert_eq!(span.events[1].name, "transition_2");
    assert_eq!(
        span.events[0].attributes.get(&"state_machine.transition.new_state".to_string()).unwrap(),
        &JsonScalar::Text("STARTING".to_string())
    );
    assert_eq!(
        span.events[1].attributes.get(&"state_machine.transition.new_state".to_string()).unwrap(),
        &JsonScalar::Text("RUNNING".to_string())
    );
}

#[test]
fn test_parse_span_invalid_kind() {
    // Build manually with invalid kind byte
    let mut payload = vec![5u8]; // type = span
    let len_pos = payload.len();
    payload.extend_from_slice(&0u16.to_le_bytes());
    payload.extend_from_slice(&[0u8; 16]); // trace_id
    payload.extend_from_slice(&[0u8; 8]); // span_id
    payload.extend_from_slice(&[0u8; 8]); // parent_span_id
    payload.push(99); // invalid kind
    // Don't need more — should fail here

    let entry_len = (payload.len() - len_pos - 2) as u16;
    payload[len_pos..len_pos + 2].copy_from_slice(&entry_len.to_le_bytes());

    let result = AdsParser::parse_all(&payload);
    assert!(result.is_err());
}

#[test]
fn test_parse_span_invalid_status_code() {
    let mut payload = vec![5u8];
    let len_pos = payload.len();
    payload.extend_from_slice(&0u16.to_le_bytes());
    payload.extend_from_slice(&[0u8; 16]); // trace_id
    payload.extend_from_slice(&[0u8; 8]); // span_id
    payload.extend_from_slice(&[0u8; 8]); // parent_span_id
    payload.push(0); // valid kind
    payload.push(99); // invalid status code

    let entry_len = (payload.len() - len_pos - 2) as u16;
    payload[len_pos..len_pos + 2].copy_from_slice(&entry_len.to_le_bytes());

    let result = AdsParser::parse_all(&payload);
    assert!(result.is_err());
}

#[test]
fn test_parse_mixed_logs_and_spans() {
    let mut payload = Vec::new();

    // First: v1 log entry
    let v1 = build_test_payload("Log message", "logger", 2);
    payload.extend_from_slice(&v1);

    // Second: span entry
    let span = build_span_payload("motor_cycle", 0, 1, &[], &[]);
    payload.extend_from_slice(&span);

    // Third: registration
    payload.push(3); // type = registration
    payload.push(1); // task_index
    payload.push(4);
    payload.extend_from_slice(b"Task");
    payload.push(3);
    payload.extend_from_slice(b"App");
    payload.push(4);
    payload.extend_from_slice(b"Proj");
    payload.extend_from_slice(&0u32.to_le_bytes());

    let result = AdsParser::parse_all(&payload).unwrap();
    assert_eq!(result.entries.len(), 1);
    assert_eq!(result.spans.len(), 1);
    assert_eq!(result.registrations.len(), 1);

    assert_eq!(result.entries[0].message, "Log message");
    assert_eq!(result.spans[0].name, "motor_cycle");
    assert_eq!(result.registrations[0].task_name, "Task");
}

#[test]
fn test_parse_span_with_numeric_attribute() {
    let dint_bytes = 42i32.to_le_bytes();
    let attrs: Vec<(&str, u8, &[u8])> = vec![("retry_count", 8, &dint_bytes)];

    let payload = build_span_payload("operation", 0, 0, &[], &attrs);

    let result = AdsParser::parse_all(&payload).unwrap();
    let span = &result.spans[0];

    assert_eq!(span.attributes.len(), 1);
    assert_eq!(span.attributes.get(&"retry_count".to_string()).unwrap(), &JsonScalar::Unsigned(42));
}

#[test]
fn test_parse_span_with_parent() {
    // Build manually to set a non-zero parent_span_id
    let mut payload = vec![5u8];
    let len_pos = payload.len();
    payload.extend_from_slice(&0u16.to_le_bytes());

    // trace_id
    payload.extend_from_slice(&[0xaa; 16]);
    // span_id
    payload.extend_from_slice(&[0xbb; 8]);
    // parent_span_id (non-zero)
    payload.extend_from_slice(&[0xcc; 8]);

    payload.push(0); // kind = Internal
    payload.push(0); // status = Unset

    let filetime = (Utc::now().timestamp() as u64 * 10_000_000) + 116444736000000000;
    payload.extend_from_slice(&filetime.to_le_bytes());
    payload.extend_from_slice(&filetime.to_le_bytes());

    payload.push(1); // task_index
    payload.extend_from_slice(&100u32.to_le_bytes());
    payload.push(0); // event_count
    payload.push(0); // attr_count

    let name = "child_span";
    payload.push(name.len() as u8);
    payload.extend_from_slice(name.as_bytes());
    payload.push(0); // status_message empty

    let entry_len = (payload.len() - len_pos - 2) as u16;
    payload[len_pos..len_pos + 2].copy_from_slice(&entry_len.to_le_bytes());

    let result = AdsParser::parse_all(&payload).unwrap();
    let span = &result.spans[0];

    assert_eq!(span.name, "child_span");
    assert_eq!(span.parent_span_id_hex(), "cccccccccccccccc");
    assert_eq!(span.span_id_hex(), "bbbbbbbbbbbbbbbb");
    assert_eq!(
        span.trace_id_hex(),
        "aaaaaaaaaaaaaaaaaaaaaaaaaaaaaaaa"
    );
}

#[test]
fn test_parse_multiple_spans() {
    let mut payload = Vec::new();

    let span1 = build_span_payload("span_one", 0, 1, &[], &[]);
    let span2 = build_span_payload("span_two", 1, 0, &[], &[]);
    payload.extend_from_slice(&span1);
    payload.extend_from_slice(&span2);

    let result = AdsParser::parse_all(&payload).unwrap();
    assert_eq!(result.spans.len(), 2);
    assert_eq!(result.spans[0].name, "span_one");
    assert_eq!(result.spans[0].kind, SpanKind::Internal);
    assert_eq!(result.spans[0].status_code, SpanStatusCode::Okay);
    assert_eq!(result.spans[1].name, "span_two");
    assert_eq!(result.spans[1].kind, SpanKind::Server);
    assert_eq!(result.spans[1].status_code, SpanStatusCode::Unset);
}

#[test]
fn test_parse_span_incomplete_buffer() {
    // Just a type byte and partial length
    let payload = vec![5u8, 0xFF];
    let result = AdsParser::parse_all(&payload);
    assert!(result.is_err());
}

#[test]
fn test_parse_result_spans_default_empty() {
    // Verify that parsing a buffer with only log entries
    // still produces an empty spans vector
    let payload = build_test_payload("Test", "logger", 2);
    let result = AdsParser::parse_all(&payload).unwrap();
    assert!(result.spans.is_empty());
}

const NOW: Timestamp = Timestamp { secs: 1_700_000_000, nanos: 5 };

fn with_argument(kind: i16, value: &[u8]) -> Result<JsonScalar, AdsError> {
    let mut payload = build_test_payload("Test", "logger", 2);
    payload.pop();
    payload.extend_from_slice(&[1, 0]);
    payload.extend_from_slice(&kind.to_le_bytes());
    payload.extend_from_slice(value);
    payload.push(0);
    let mut entry = AdsParser::parse(&payload)?;
    Ok(entry.arguments.remove(&0).unwrap())
}

#[test]
fn filetimes_are_exact() {
    let mut payload = build_test_payload("Test", "logger", 2);
    let at = 1 + 5 + 7 + 2;
    let ticks: u64 = 116_444_736_000_000_000 + 1_234_567_890 * 10_000_000 + 1_234_567;
    payload[at..at + 8].copy_from_slice(&ticks.to_le_bytes());
    payload[at + 8..at + 16].copy_from_slice(&[0; 8]);
    let entry = AdsParser::parse_at(&payload, NOW).unwrap();
    assert_eq!(entry.plc_timestamp, Timestamp { secs: 1_234_567_890, nanos: 123_456_700 });
    assert_eq!(entry.clock_timestamp, NOW);
}

#[test]
fn integers_and_reals_by_their_types() {
    assert_eq!(with_argument(8, &(-2i32).to_le_bytes()).unwrap(), JsonScalar::Negative(-2));
    assert_eq!(with_argument(13, &[2]).unwrap(), JsonScalar::Bool(true));
    assert_eq!(
        with_argument(5, &2.5f64.to_le_bytes()).unwrap(),
        JsonScalar::Lreal(Lreal(2.5f64.to_bits()))
    );
    assert_eq!(with_argument(5, &f64::NAN.to_le_bytes()).unwrap(), JsonScalar::Null);
    assert_eq!(
        with_argument(4, &0.1f32.to_le_bytes()).unwrap(),
        JsonScalar::Real(Real(0.1f32.to_bits()))
    );
}

#[test]
fn one_argument_too_many_is_an_error() {
    let mut payload = build_test_payload("Test", "logger", 2);
    payload.pop();
    for i in 0..33u8 {
        payload.extend_from_slice(&[1, i, 13, 0, 1]);
    }
    payload.push(0);
    assert_eq!(
        AdsParser::parse(&payload).unwrap_err(),
        AdsError::ParseError("Too many arguments: 33 exceeds maximum 32".to_string())
    );
}

#[test]
fn oversized_buffers_are_refused() {
    let data = vec![0u8; 1_048_577];
    assert_eq!(
        AdsParser::parse_all(&data).unwrap_err(),
        AdsError::ParseError("Message size 1048577 exceeds maximum 1048576".to_string())
    );
    assert!(AdsParser::parse(&data).is_err());
}

#[test]
fn padding_and_broken_messages_keep_what_was_found() {
    let mut payload = build_test_payload("First", "log1", 2);
    let whole = payload.len();
    payload.extend_from_slice(&[255, 1, 2, 3]);
    assert_eq!(AdsParser::parse_all(&payload).unwrap().entries.len(), 1);
    payload.truncate(whole);
    payload.extend_from_slice(&[1, 200, b'x']);
    assert_eq!(AdsParser::parse_all(&payload).unwrap().entries.len(), 1);
    assert!(AdsParser::parse_all(&payload[whole..]).is_err());
    assert!(AdsParser::parse_all(&[]).unwrap().entries.is_empty());
}

#[test]
fn invalid_text_names_the_place() {
    assert_eq!(
        BytesReader::new(&[3, b'a', 0xC3, b'x']).read_string().unwrap_err(),
        AdsError::InvalidStringEncoding("invalid utf-8 sequence of 1 bytes from index 1".to_string())
    );
}

fn registration_payload(task: u8) -> Vec<u8> {
    let mut payload = vec![3, task];
    for text in ["Main", "App", "Proj"] {
        payload.push(text.len() as u8);
        payload.extend_from_slice(text.as_bytes());
    }
    payload.extend_from_slice(&7u32.to_le_bytes());
    payload
}

#[test]
fn buffers_concatenate() {
    let mut a = build_test_payload("First", "log1", 2);
    a.extend_from_slice(&registration_payload(1));
    let mut b = registration_payload(2);
    b.extend_from_slice(&build_test_payload("Second", "log2", 3));
    let both = AdsParser::parse_all(&[a.clone(), b.clone()].concat()).unwrap();
    let x = AdsParser::parse_all(&a).unwrap();
    let y = AdsParser::parse_all(&b).unwrap();
    let messages = |r: &ParseResult| r.entries.iter().map(|e| e.message.clone()).collect::<Vec<_>>();
    let tasks = |r: &ParseResult| r.registrations.iter().map(|e| e.task_index).collect::<Vec<_>>();
    assert_eq!(messages(&both), [messages(&x), messages(&y)].concat());
    assert_eq!(messages(&both), ["First", "Second"]);
    assert_eq!(tasks(&both), [tasks(&x), tasks(&y)].concat());
    assert_eq!(tasks(&both), [1, 2]);
}

#[test]
fn broken_tails_change_nothing() {
    let whole = registration_payload(4);
    let tails: [&[u8]; 6] = [&[1, 9, b'x'], &[2, 1], &[3, 1, 200], &[5, 0], &[77, 1, 2], &[0]];
    for tail in tails {
        let r = AdsParser::parse_all(&[&whole[..], tail].concat()).unwrap();
        assert_eq!(r.registrations.len(), 1);
        assert_eq!(r.registrations[0].task_index, 4);
        assert!(r.entries.is_empty() && r.spans.is_empty());
    }
}
