use tc_otel::ads_client::{AdsReadRequest, AdsReadResponse};
use tc_otel::ams::{AmsHeader, AmsNetId, ADS_CMD_READ};
use tc_otel::client::error::ClientError;
use tc_otel::client::{
    decode_read, decode_read_response, decode_scalar, DispatcherClient, PlcValue, SymbolMeta, SymbolReader,
};
use tc_otel::dispatcher::{AmsDispatcher, Awaited, ResponseFrame, TransportKind};
use tc_otel::models::{Lreal, MetricValue, Real};
use tc_otel::time::Duration;
use tc_otel::widen::widen;

fn as_f64(v: PlcValue) -> f64 {
    match v.as_metric_value() {
        MetricValue::Lreal(x) => f64::from_bits(x.0),
        MetricValue::Signed(n) => n as f64,
        MetricValue::Unsigned(n) => n as f64,
        MetricValue::Ratio(a, b) => a as f64 / b as f64,
    }
}

#[test]
fn decode_bool() {
    assert_eq!(decode_scalar("BOOL", &[0]).unwrap(), PlcValue::Bool(false));
    assert_eq!(decode_scalar("BOOL", &[1]).unwrap(), PlcValue::Bool(true));
}

#[test]
fn decode_lreal() {
    let x: f64 = 1234.56789;
    let bytes = x.to_le_bytes();
    match decode_scalar("LREAL", &bytes).unwrap() {
        PlcValue::F64(v) => assert!((f64::from_bits(v.0) - x).abs() < 1e-9),
        other => panic!("expected F64, got {other:?}"),
    }
}

#[test]
fn decode_real() {
    let x: f32 = 2.5;
    let bytes = x.to_le_bytes();
    match decode_scalar("REAL", &bytes).unwrap() {
        PlcValue::F64(v) => assert!((f64::from_bits(v.0) - 2.5_f64).abs() < 1e-6),
        other => panic!("expected F64, got {other:?}"),
    }
}

#[test]
fn decode_dint_negative() {
    let bytes = (-42_i32).to_le_bytes();
    assert_eq!(decode_scalar("DINT", &bytes).unwrap(), PlcValue::I64(-42));
}

#[test]
fn decode_uint_word_aliases() {
    let bytes = 0x1234_u16.to_le_bytes();
    assert_eq!(
        decode_scalar("UINT", &bytes).unwrap(),
        PlcValue::U64(0x1234)
    );
    assert_eq!(
        decode_scalar("WORD", &bytes).unwrap(),
        PlcValue::U64(0x1234)
    );
}

#[test]
fn decode_unknown_type_returns_none() {
    assert!(decode_scalar("STRING", &[0; 80]).is_none());
    assert!(decode_scalar("ST_MyStruct", &[0; 4]).is_none());
}

#[test]
fn decode_short_buffer_returns_none() {
    assert!(decode_scalar("LREAL", &[0; 4]).is_none());
    assert!(decode_scalar("DINT", &[0; 2]).is_none());
}

#[test]
fn as_f64_bridges_all_variants() {
    assert_eq!(as_f64(PlcValue::Bool(true)), 1.0);
    assert_eq!(as_f64(PlcValue::Bool(false)), 0.0);
    assert_eq!(as_f64(PlcValue::I64(-7)), -7.0);
    assert_eq!(as_f64(PlcValue::U64(42)), 42.0);
    assert_eq!(as_f64(PlcValue::F64(Lreal(1.5_f64.to_bits()))), 1.5);
}

#[test]
fn widening_agrees_with_the_machine() {
    let mut bits: Vec<u32> = vec![
        0, 1, 2, 3, 0x007F_FFFF, 0x0040_0000, 0x0080_0000, 0x3F80_0000, 0x7F7F_FFFF, 0x7F80_0000, 0x4020_0000,
    ];
    let mut x: u32 = 0x1234_5678;
    for _ in 0..2000 {
        x = x.wrapping_mul(1_664_525).wrapping_add(1_013_904_223);
        bits.push(x);
        bits.push(x >> 9);
    }
    for b in bits {
        for b in [b, b | 0x8000_0000] {
            let wide = f64::from_bits(widen(Real(b)).0);
            let machine = f32::from_bits(b) as f64;
            if machine.is_nan() {
                assert!(wide.is_nan());
            } else {
                assert_eq!(wide.to_bits(), machine.to_bits(), "{:#x}", b);
            }
        }
    }
}

#[test]
fn all_scalar_types() {
    let bytes = [0xFE, 0xFF, 0xFF, 0xFF, 0xFF, 0xFF, 0xFF, 0xFF];
    for (name, expected) in [
        ("SINT", PlcValue::I64(-2)),
        ("USINT", PlcValue::U64(254)),
        ("BYTE", PlcValue::U64(254)),
        ("INT", PlcValue::I64(-2)),
        ("DINT", PlcValue::I64(-2)),
        ("UDINT", PlcValue::U64(0xFFFF_FFFE)),
        ("DWORD", PlcValue::U64(0xFFFF_FFFE)),
        ("LINT", PlcValue::I64(-2)),
        ("ULINT", PlcValue::U64(u64::MAX - 1)),
        ("LWORD", PlcValue::U64(u64::MAX - 1)),
    ] {
        assert_eq!(decode_scalar(name, &bytes), Some(expected), "{}", name);
    }
    assert_eq!(decode_scalar("  lInt\u{a0}", &bytes), Some(PlcValue::I64(-2)));
    assert_eq!(decode_scalar("BOOL", &[]), None);
}

fn meta(name: &str) -> SymbolMeta {
    SymbolMeta { size: 4, data_type_name: name.to_string(), index_group: 0x4040, index_offset: 16 }
}

struct Fixed(Vec<u8>);

impl SymbolReader for Fixed {
    fn read_raw(&self, _: &SymbolMeta) -> Result<Vec<u8>, ClientError> {
        Ok(self.0.clone())
    }
}

#[test]
fn readers_decode_what_they_read() {
    let reader = Fixed(vec![42, 0, 0, 0]);
    assert_eq!(reader.read_value(&meta("DINT")).unwrap(), PlcValue::I64(42));
    assert_eq!(
        reader.read_value(&meta("STRING")).unwrap_err(),
        ClientError::Decode("unsupported scalar type 'STRING' (size 4)".to_string())
    );
    let err = decode_read(&meta("DINT"), Err(ClientError::Io("x".to_string()))).unwrap_err();
    assert_eq!(err.to_string(), "io error: x");
}

#[test]
fn read_responses() {
    let ok = AdsReadResponse { result: 0, data: vec![1, 2, 3] }.serialize();
    assert_eq!(decode_read_response(&ok).unwrap(), vec![1, 2, 3]);
    assert_eq!(
        decode_read_response(&ok[..7]).unwrap_err().to_string(),
        "decode error: ADS read response too short: 7 bytes"
    );
    assert_eq!(
        decode_read_response(&ok[..10]).unwrap_err().to_string(),
        "decode error: ADS read payload truncated: declared 3 bytes, got 2"
    );
    let failed = AdsReadResponse { result: 0x706, data: vec![] }.serialize();
    assert_eq!(
        decode_read_response(&failed).unwrap_err().to_string(),
        "ads protocol error: ADS read returned error 0x706"
    );
}

#[test]
fn error_messages() {
    assert_eq!(ClientError::SymbolNotFound("a".to_string()).to_string(), "symbol not found: a");
    assert_eq!(ClientError::UnknownTarget("b".to_string()).to_string(), "target not configured: b");
}

#[test]
fn symbols_are_read_through_a_dispatcher() {
    let plc = AmsNetId([5, 80, 201, 232, 1, 1]);
    let mut dispatcher = AmsDispatcher::new(AmsNetId([10, 10, 10, 10, 1, 1]), 16150);
    let client = DispatcherClient::new(plc, 851);
    assert_eq!(client.request_timeout(), Duration::from_secs(5));
    let client = client.with_request_timeout(Duration::from_millis(250));
    assert_eq!(
        client.begin_read(&mut dispatcher, &meta("DINT")).unwrap_err().to_string(),
        "ads protocol error: no route for AMS Net ID 5.80.201.232.1.1"
    );
    dispatcher.attach_mqtt("AdsOverMqtt").unwrap();
    dispatcher.add_static_route(plc, TransportKind::Mqtt);
    let sent = client.begin_read(&mut dispatcher, &meta("DINT")).unwrap();
    let header = AmsHeader::parse(&sent.frame[6..]).unwrap();
    assert_eq!(header.command_id, ADS_CMD_READ);
    let request = AdsReadRequest::parse(&sent.frame[38..]).unwrap();
    assert_eq!((request.index_group, request.index_offset, request.read_length), (0x4040, 16, 4));
    let answer = ResponseFrame {
        header: header.make_response(0),
        payload: AdsReadResponse { result: 0, data: vec![7, 0, 0, 0] }.serialize(),
    };
    let raw = client.finish_read(&mut dispatcher, sent.invoke_id, Awaited::Response(answer));
    assert_eq!(decode_read(&meta("DINT"), raw).unwrap(), PlcValue::I64(7));
    let late = client.finish_read(&mut dispatcher, 9, Awaited::TimedOut(client.request_timeout()));
    assert_eq!(late.unwrap_err().to_string(), "ads protocol error: request timed out after 250ms");
}
