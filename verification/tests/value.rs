use tc_otel::models::{JsonScalar, Lreal, Real};
use tc_otel::reader::BytesReader;
use tc_otel::value::{ltime_literal, remap_v2_type_id, time_literal, time_of_day_literal, units_of};

fn value(kind: i32, bytes: &[u8]) -> JsonScalar {
    let mut reader = BytesReader::new(bytes);
    let v = reader.read_value_with_type(kind).unwrap();
    assert_eq!(reader.remaining(), 0);
    v
}

fn tagged(kind: i16, bytes: &[u8]) -> JsonScalar {
    let data = [&kind.to_le_bytes()[..], bytes].concat();
    let mut reader = BytesReader::new(&data);
    let v = reader.read_value().unwrap();
    assert_eq!(reader.remaining(), 0);
    v
}

fn text(s: &str) -> JsonScalar {
    JsonScalar::Text(s.to_string())
}

#[test]
fn time_literals() {
    assert_eq!(time_literal(0), "T#0s");
    assert_eq!(time_literal(1), "T#1ms");
    assert_eq!(time_literal(90_061_001), "T#1d1h1m1s1ms");
    assert_eq!(time_literal(86_400_000), "T#1d");
    assert_eq!(value(20000, &1500u32.to_le_bytes()), text("T#1s500ms"));
    assert_eq!(ltime_literal(0), "LTIME#0s");
    assert_eq!(ltime_literal(86_400_000_000_000 + 3_600_000_000_000 + 60_000_000_000 + 1_001_001_001), "LTIME#1d1h1m1s1ms1us1ns");
    assert_eq!(value(20001, &15u64.to_le_bytes()), text("LTIME#1us500ns"));
    assert_eq!(time_of_day_literal(0), "TOD#00:00:00");
    assert_eq!(time_of_day_literal(45_296_007), "TOD#12:34:56.007");
    assert_eq!(value(20004, &3_600_000u32.to_le_bytes()), text("TOD#01:00:00"));
}

#[test]
fn dates_are_written_in_utc() {
    assert_eq!(value(20002, &0u32.to_le_bytes()), text("D#1970-1-1"));
    assert_eq!(value(20002, &1_709_164_800u32.to_le_bytes()), text("D#2024-2-29"));
    assert_eq!(value(20003, &1_709_208_309u32.to_le_bytes()), text("DT#2024-2-29-12:05:09"));
    assert_eq!(value(20003, &u32::MAX.to_le_bytes()), text("DT#2106-2-7-06:28:15"));
}

#[test]
fn wide_strings() {
    let mut data = vec![4u8];
    for unit in [0x0041u16, 0x00E9, 0xD83D, 0xDE00] {
        data.extend_from_slice(&unit.to_le_bytes());
    }
    assert_eq!(value(20006, &data), text("A\u{e9}\u{1F600}"));
    assert_eq!(value(20006, &[1, 0x00, 0xD8]), text("\u{FFFD}"));
    assert_eq!(value(20006, &[0]), text(""));
    // A low surrogate first, then a high one without its pair.
    assert_eq!(value(20006, &[3, 0x00, 0xDC, 0x00, 0xD8, 0x42, 0x00]), text("\u{FFFD}\u{FFFD}B"));
    assert_eq!(value(20006, &[2, 0x00, 0xD8, 0x00, 0xDC]), text("\u{10000}"));
    assert_eq!(value(20006, &[2, 0xFF, 0xDB, 0xFF, 0xDF]), text("\u{10FFFF}"));
    assert_eq!(units_of(&[1, 2, 3, 4, 5]), vec![0x0201, 0x0403]);
}

#[test]
fn enumerations_name_their_type() {
    assert_eq!(value(20005, &[2, 0x34, 0x12]), JsonScalar::Unsigned(0x1234));
    assert_eq!(value(20005, &[99]), JsonScalar::Null);
    assert_eq!(tagged(20005, &[2, 0, 0x34, 0x12]), JsonScalar::Unsigned(0x1234));
    assert_eq!(tagged(20005, &[15, 0, 1, 0, 0, 0, 0, 0, 0, 0x80]), JsonScalar::Unsigned(0x8000_0000_0000_0001));
}

#[test]
fn all_plain_types() {
    let all = [0xFFu8; 8];
    for (kind, width, expected) in [
        (0, 0, JsonScalar::Null),
        (1, 1, JsonScalar::Unsigned(255)),
        (2, 2, JsonScalar::Unsigned(65535)),
        (3, 4, JsonScalar::Unsigned(4_294_967_295)),
        (4, 4, JsonScalar::Null),
        (5, 8, JsonScalar::Null),
        (6, 1, JsonScalar::Negative(-1)),
        (7, 2, JsonScalar::Negative(-1)),
        (8, 4, JsonScalar::Negative(-1)),
        (9, 1, JsonScalar::Unsigned(255)),
        (10, 2, JsonScalar::Unsigned(65535)),
        (11, 4, JsonScalar::Unsigned(4_294_967_295)),
        (13, 1, JsonScalar::Bool(true)),
        (15, 8, JsonScalar::Unsigned(u64::MAX)),
        (17, 8, JsonScalar::Negative(-1)),
        (77, 0, JsonScalar::Null),
    ] {
        assert_eq!(value(kind, &all[..width]), expected, "type {}", kind);
        assert_eq!(tagged(kind as i16, &all[..width]), expected, "type {}", kind);
    }
    assert_eq!(value(4, &1.5f32.to_le_bytes()), JsonScalar::Real(Real(1.5f32.to_bits())));
    assert_eq!(value(5, &1.5f64.to_le_bytes()), JsonScalar::Lreal(Lreal(1.5f64.to_bits())));
    assert_eq!(value(12, &[2, b'o', b'k']), text("ok"));
    assert_eq!(value(17, &5i64.to_le_bytes()), JsonScalar::Unsigned(5));
}

#[test]
fn short_type_ids() {
    assert_eq!(remap_v2_type_id(100), 20000);
    assert_eq!(remap_v2_type_id(106), 20006);
    assert_eq!(remap_v2_type_id(107), 107);
    assert_eq!(remap_v2_type_id(5), 5);
}
