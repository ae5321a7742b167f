use tc_otel::diagnostics::{
    DiagEvent, PUSH_BATCH_EVENT_TYPE, PUSH_BATCH_HEADER_SIZE, PUSH_BATCH_MAX_SAMPLES, PUSH_METRIC_EVENT_TYPE,
    PUSH_SAMPLE_SIZE, PUSH_WIRE_VERSION, SAMPLE_FLAG_CYCLE_EXCEED, SAMPLE_FLAG_OVERFLOW, SAMPLE_FLAG_RT_VIOLATION,
};
use tc_otel::diagnostics_push::{decode_batch, decode_metric_batch};

fn batch_header(
    task_obj_id: u32,
    task_port: u16,
    window_ms: u16,
    sample_count: u16,
    cycle_count_start: u32,
    cycle_count_end: u32,
    dc_time_start: i64,
    dc_time_end: i64,
    exec_time_min_us: u32,
    exec_time_max_us: u32,
    exec_time_avg_us: u32,
    cycle_exceed_count: u32,
    rt_violation_count: u32,
    task_name: &str,
) -> Vec<u8> {
    let mut v = Vec::with_capacity(PUSH_BATCH_HEADER_SIZE);
    v.push(PUSH_WIRE_VERSION);
    v.push(PUSH_BATCH_EVENT_TYPE);
    v.extend_from_slice(&0_u16.to_le_bytes()); // reserved0
    v.extend_from_slice(&task_obj_id.to_le_bytes());
    v.extend_from_slice(&task_port.to_le_bytes());
    v.extend_from_slice(&window_ms.to_le_bytes());
    v.extend_from_slice(&sample_count.to_le_bytes());
    v.extend_from_slice(&0_u16.to_le_bytes()); // reserved1
    v.extend_from_slice(&cycle_count_start.to_le_bytes());
    v.extend_from_slice(&cycle_count_end.to_le_bytes());
    v.extend_from_slice(&dc_time_start.to_le_bytes());
    v.extend_from_slice(&dc_time_end.to_le_bytes());
    v.extend_from_slice(&exec_time_min_us.to_le_bytes());
    v.extend_from_slice(&exec_time_max_us.to_le_bytes());
    v.extend_from_slice(&exec_time_avg_us.to_le_bytes());
    v.extend_from_slice(&cycle_exceed_count.to_le_bytes());
    v.extend_from_slice(&rt_violation_count.to_le_bytes());

    let mut name_bytes = [0_u8; 20];
    let n = task_name.len().min(20);
    name_bytes[..n].copy_from_slice(&task_name.as_bytes()[..n]);
    v.extend_from_slice(&name_bytes);
    assert_eq!(v.len(), PUSH_BATCH_HEADER_SIZE, "header size mismatch");
    v
}

fn sample_bytes(cycle_count: u32, exec_time_us: u32, dc_time: i64, flags: u8) -> Vec<u8> {
    let mut v = Vec::with_capacity(PUSH_SAMPLE_SIZE);
    v.extend_from_slice(&cycle_count.to_le_bytes());
    v.extend_from_slice(&exec_time_us.to_le_bytes());
    v.extend_from_slice(&dc_time.to_le_bytes());
    v.push(flags);
    v.extend_from_slice(&[0_u8; 7]); // padding
    assert_eq!(v.len(), PUSH_SAMPLE_SIZE, "sample size mismatch");
    v
}

#[test]
fn decode_batch_empty_sample_count() {
    let frame = batch_header(100, 350, 100, 0, 1000, 1000, 0, 0, 0, 0, 0, 0, 0, "PlcTask");
    let ev = decode_batch(&frame).expect("empty batch decodes");
    match ev {
        DiagEvent::TaskDiagBatch {
            task_port,
            task_name,
            samples,
            window_ms,
            ..
        } => {
            assert_eq!(task_port, 350);
            assert_eq!(task_name, "PlcTask");
            assert_eq!(window_ms, 100);
            assert!(samples.is_empty());
        }
        _ => panic!("expected TaskDiagBatch"),
    }
}

#[test]
fn decode_batch_with_three_samples_preserves_order_and_flags() {
    let mut frame = batch_header(
        100, 350, 100, 3, 1000, 1002, 1_000_000, 1_200_000, 150, 800, 400, 1, 1, "PlcTask",
    );
    frame.extend_from_slice(&sample_bytes(1000, 150, 1_000_000, 0));
    frame.extend_from_slice(&sample_bytes(
        1001,
        800,
        1_100_000,
        SAMPLE_FLAG_CYCLE_EXCEED,
    ));
    frame.extend_from_slice(&sample_bytes(
        1002,
        250,
        1_200_000,
        SAMPLE_FLAG_RT_VIOLATION,
    ));

    let ev = decode_batch(&frame).expect("valid batch decodes");
    match ev {
        DiagEvent::TaskDiagBatch {
            samples,
            exec_time_min_us,
            exec_time_max_us,
            exec_time_avg_us,
            cycle_exceed_count,
            rt_violation_count,
            cycle_count_start,
            cycle_count_end,
            ..
        } => {
            assert_eq!(samples.len(), 3);
            assert_eq!(samples[0].cycle_count, 1000);
            assert_eq!(samples[1].exec_time_us, 800);
            assert_eq!(samples[1].flags, SAMPLE_FLAG_CYCLE_EXCEED);
            assert_eq!(samples[2].flags, SAMPLE_FLAG_RT_VIOLATION);
            assert_eq!(samples[2].dc_time, 1_200_000);
            assert_eq!(exec_time_min_us, 150);
            assert_eq!(exec_time_max_us, 800);
            assert_eq!(exec_time_avg_us, 400);
            assert_eq!(cycle_exceed_count, 1);
            assert_eq!(rt_violation_count, 1);
            assert_eq!(cycle_count_start, 1000);
            assert_eq!(cycle_count_end, 1002);
        }
        _ => panic!("expected TaskDiagBatch"),
    }
}

#[test]
fn decode_batch_overflow_flag_preserved() {
    let mut frame = batch_header(
        100, 350, 100, 1, 2000, 2000, 0, 0, 100, 100, 100, 0, 0, "PlcTask",
    );
    frame.extend_from_slice(&sample_bytes(2000, 100, 0, SAMPLE_FLAG_OVERFLOW));
    let ev = decode_batch(&frame).unwrap();
    match ev {
        DiagEvent::TaskDiagBatch { samples, .. } => {
            assert_eq!(samples[0].flags, SAMPLE_FLAG_OVERFLOW);
        }
        _ => panic!("expected TaskDiagBatch"),
    }
}

#[test]
fn decode_batch_rejects_short_header() {
    let frame = vec![0_u8; PUSH_BATCH_HEADER_SIZE - 1];
    assert!(decode_batch(&frame).is_none());
}

#[test]
fn decode_batch_rejects_wrong_version() {
    let mut frame = batch_header(100, 350, 100, 0, 0, 0, 0, 0, 0, 0, 0, 0, 0, "PlcTask");
    frame[0] = 99;
    assert!(decode_batch(&frame).is_none());
}

#[test]
fn decode_batch_rejects_wrong_event_type() {
    let mut frame = batch_header(100, 350, 100, 0, 0, 0, 0, 0, 0, 0, 0, 0, 0, "PlcTask");
    frame[1] = 0;
    assert!(decode_batch(&frame).is_none());
}

#[test]
fn decode_batch_rejects_truncated_samples() {
    let mut frame = batch_header(
        100, 350, 100, 2, 1000, 1001, 0, 0, 100, 200, 150, 0, 0, "PlcTask",
    );
    frame.extend_from_slice(&sample_bytes(1000, 100, 0, 0));
    // Missing second sample
    assert!(decode_batch(&frame).is_none());
}

#[test]
fn decode_batch_rejects_sample_count_above_max() {
    let mut frame = batch_header(
        100,
        350,
        100,
        (PUSH_BATCH_MAX_SAMPLES + 1) as u16,
        0,
        0,
        0,
        0,
        0,
        0,
        0,
        0,
        0,
        "PlcTask",
    );
    // Even if we then provide bytes, header alone must be rejected.
    frame.resize(
        frame.len() + (PUSH_BATCH_MAX_SAMPLES + 1) * PUSH_SAMPLE_SIZE,
        0,
    );
    assert!(decode_batch(&frame).is_none());
}

#[test]
fn decode_batch_task_name_strips_trailing_nulls() {
    let frame = batch_header(100, 350, 100, 0, 0, 0, 0, 0, 0, 0, 0, 0, 0, "Task\0\0\0");
    let ev = decode_batch(&frame).unwrap();
    match ev {
        DiagEvent::TaskDiagBatch { task_name, .. } => assert_eq!(task_name, "Task"),
        _ => panic!("expected TaskDiagBatch"),
    }
}

#[test]
fn decode_batch_handles_non_utf8_task_name() {
    let mut frame = batch_header(100, 350, 100, 0, 0, 0, 0, 0, 0, 0, 0, 0, 0, "");
    frame[0x3C] = 0xFF; // first name byte invalid UTF-8
    let ev = decode_batch(&frame).expect("must not panic on invalid UTF-8");
    if let DiagEvent::TaskDiagBatch { task_name, .. } = ev {
        assert!(task_name.contains('\u{FFFD}'));
    } else {
        panic!("expected TaskDiagBatch");
    }
}

// ─── Metric batch tests ───────────────────────────────────

fn metric_batch_header(
    descriptor_count: u16,
    sample_count: u16,
    window_ms: u16,
    cycle_count: u32,
    dc_time_start: i64,
    dc_time_end: i64,
) -> Vec<u8> {
    let mut v = Vec::with_capacity(32);
    v.push(PUSH_WIRE_VERSION);
    v.push(PUSH_METRIC_EVENT_TYPE);
    v.extend_from_slice(&0_u16.to_le_bytes()); // reserved0
    v.extend_from_slice(&descriptor_count.to_le_bytes());
    v.extend_from_slice(&sample_count.to_le_bytes());
    v.extend_from_slice(&window_ms.to_le_bytes());
    v.extend_from_slice(&0_u16.to_le_bytes()); // reserved1
    v.extend_from_slice(&cycle_count.to_le_bytes());
    v.extend_from_slice(&dc_time_start.to_le_bytes());
    v.extend_from_slice(&dc_time_end.to_le_bytes());
    assert_eq!(v.len(), 32, "metric header size mismatch");
    v
}

fn metric_sample_bytes(metric_id: u16, flags: u8, dc_time: i64, value: f32) -> Vec<u8> {
    let mut v = Vec::with_capacity(16);
    v.extend_from_slice(&metric_id.to_le_bytes());
    v.push(flags);
    v.push(0); // reserved
    v.extend_from_slice(&dc_time.to_le_bytes());
    v.extend_from_slice(&value.to_le_bytes());
    assert_eq!(v.len(), 16, "metric sample size mismatch");
    v
}

fn metric_descriptor_bytes(
    metric_id: u16,
    kind: u8,
    flags: u8,
    name: &str,
    unit: &str,
    description: &str,
    attributes: &[(String, String)],
    histogram_bounds: Option<&[f32]>,
) -> Vec<u8> {
    let mut v = Vec::new();
    v.extend_from_slice(&metric_id.to_le_bytes());
    v.push(kind);
    v.push(flags);
    v.push(name.len() as u8);
    v.push(unit.len() as u8);
    v.push(description.len() as u8);
    v.push(attributes.len() as u8);
    let bucket_count = histogram_bounds.as_ref().map(|b| b.len()).unwrap_or(0) as u8;
    v.push(bucket_count);
    v.push(0); // reserved
    v.extend_from_slice(&0_u16.to_le_bytes()); // reserved
    v.extend_from_slice(name.as_bytes());
    v.extend_from_slice(unit.as_bytes());
    v.extend_from_slice(description.as_bytes());
    for (key, val) in attributes {
        v.push(key.len() as u8);
        v.push(val.len() as u8);
        v.extend_from_slice(key.as_bytes());
        v.extend_from_slice(val.as_bytes());
    }
    if let Some(bounds) = histogram_bounds {
        for bound in bounds {
            v.extend_from_slice(&bound.to_le_bytes());
        }
    }
    v
}

#[test]
fn decode_metric_batch_empty() {
    let frame = metric_batch_header(0, 0, 100, 1000, 0, 0);
    let ev = decode_metric_batch(&frame).expect("empty metric batch decodes");
    match ev {
        DiagEvent::MetricBatch {
            window_ms,
            cycle_count,
            descriptors,
            samples,
            ..
        } => {
            assert_eq!(window_ms, 100);
            assert_eq!(cycle_count, 1000);
            assert!(descriptors.is_empty());
            assert!(samples.is_empty());
        }
        _ => panic!("expected MetricBatch"),
    }
}

#[test]
fn decode_metric_batch_with_gauge_descriptor_and_samples() {
    let mut frame = metric_batch_header(1, 2, 100, 1000, 5000, 6000);
    frame.extend_from_slice(&metric_descriptor_bytes(
        10,
        0, // Gauge
        0, // flags
        "temperature",
        "Cel",
        "Motor temperature",
        &[],
        None,
    ));
    frame.extend_from_slice(&metric_sample_bytes(10, 0, 5000, 42.5));
    frame.extend_from_slice(&metric_sample_bytes(10, 0, 6000, 43.1));

    let ev = decode_metric_batch(&frame).expect("gauge batch decodes");
    match ev {
        DiagEvent::MetricBatch {
            descriptors,
            samples,
            ..
        } => {
            assert_eq!(descriptors.len(), 1);
            assert_eq!(descriptors[0].metric_id, 10);
            assert_eq!(descriptors[0].kind, 0);
            assert_eq!(descriptors[0].name, "temperature");
            assert_eq!(descriptors[0].unit, "Cel");
            assert_eq!(descriptors[0].description, "Motor temperature");

            assert_eq!(samples.len(), 2);
            assert_eq!(samples[0].metric_id, 10);
            assert_eq!(f32::from_bits(samples[0].value.0), 42.5);
            assert_eq!(f32::from_bits(samples[1].value.0), 43.1);
        }
        _ => panic!("expected MetricBatch"),
    }
}

#[test]
fn decode_metric_batch_with_counter_descriptor() {
    let mut frame = metric_batch_header(1, 1, 100, 2000, 1000, 2000);
    frame.extend_from_slice(&metric_descriptor_bytes(
        20,
        1, // Sum/Counter
        1, // is_monotonic
        "request_count",
        "1",
        "HTTP requests",
        &[],
        None,
    ));
    frame.extend_from_slice(&metric_sample_bytes(20, 0, 1000, 5.0));

    let ev = decode_metric_batch(&frame).expect("counter batch decodes");
    match ev {
        DiagEvent::MetricBatch { descriptors, .. } => {
            assert_eq!(descriptors[0].kind, 1);
            assert_eq!(descriptors[0].flags & 1, 1); // is_monotonic
        }
        _ => panic!("expected MetricBatch"),
    }
}

#[test]
fn decode_metric_batch_with_histogram_descriptor() {
    let bounds = vec![10.0, 20.0, 50.0, 100.0];
    let mut frame = metric_batch_header(1, 3, 100, 3000, 1000, 4000);
    frame.extend_from_slice(&metric_descriptor_bytes(
        30,
        2, // Histogram
        0,
        "response_time",
        "ms",
        "HTTP response time",
        &[],
        Some(&bounds),
    ));
    frame.extend_from_slice(&metric_sample_bytes(30, 1, 1000, 5.0)); // bucket 0-10
    frame.extend_from_slice(&metric_sample_bytes(30, 1, 2000, 25.0)); // bucket 20-50
    frame.extend_from_slice(&metric_sample_bytes(30, 1, 4000, 150.0)); // bucket >100

    let ev = decode_metric_batch(&frame).expect("histogram batch decodes");
    match ev {
        DiagEvent::MetricBatch { descriptors, .. } => {
            assert_eq!(descriptors[0].kind, 2);
            let bounds_opt = descriptors[0].histogram_bounds.as_ref();
            assert!(bounds_opt.is_some());
            let hist_bounds = bounds_opt.unwrap();
            assert_eq!(hist_bounds.len(), 4);
            assert_eq!(f32::from_bits(hist_bounds[0].0), 10.0);
            assert_eq!(f32::from_bits(hist_bounds[3].0), 100.0);
        }
        _ => panic!("expected MetricBatch"),
    }
}

#[test]
fn decode_metric_batch_with_attributes() {
    let attrs = vec![
        ("device_id".to_string(), "motor_1".to_string()),
        ("location".to_string(), "warehouse_A".to_string()),
    ];
    let mut frame = metric_batch_header(1, 0, 100, 1000, 0, 0);
    frame.extend_from_slice(&metric_descriptor_bytes(
        40,
        0,
        0,
        "vibration",
        "mm/s",
        "Motor vibration level",
        &attrs,
        None,
    ));

    let ev = decode_metric_batch(&frame).expect("batch with attrs decodes");
    match ev {
        DiagEvent::MetricBatch { descriptors, .. } => {
            assert_eq!(descriptors[0].attributes.len(), 2);
            assert_eq!(descriptors[0].attributes[0].0, "device_id");
            assert_eq!(descriptors[0].attributes[0].1, "motor_1");
        }
        _ => panic!("expected MetricBatch"),
    }
}

#[test]
fn decode_metric_batch_rejects_short_header() {
    let frame = vec![0_u8; 31];
    assert!(decode_metric_batch(&frame).is_none());
}

#[test]
fn decode_metric_batch_rejects_wrong_version() {
    let mut frame = metric_batch_header(0, 0, 100, 1000, 0, 0);
    frame[0] = 99;
    assert!(decode_metric_batch(&frame).is_none());
}

#[test]
fn decode_metric_batch_rejects_wrong_event_type() {
    let mut frame = metric_batch_header(0, 0, 100, 1000, 0, 0);
    frame[1] = 10; // task diag event type
    assert!(decode_metric_batch(&frame).is_none());
}

#[test]
fn decode_metric_batch_rejects_attr_count_gt_8() {
    let mut frame = metric_batch_header(1, 0, 100, 1000, 0, 0);
    // Build a descriptor with attr_count=9
    let mut desc = Vec::new();
    desc.extend_from_slice(&10_u16.to_le_bytes());
    desc.push(0); // kind
    desc.push(0); // flags
    desc.push(0); // name_len
    desc.push(0); // unit_len
    desc.push(0); // description_len
    desc.push(9); // attr_count = 9 (invalid)
    desc.push(0); // histogram_bucket_count
    desc.push(0); // reserved
    desc.extend_from_slice(&0_u16.to_le_bytes());
    frame.extend_from_slice(&desc);
    assert!(decode_metric_batch(&frame).is_none());
}

#[test]
fn decode_metric_batch_rejects_invalid_utf8_name() {
    let mut frame = metric_batch_header(1, 0, 100, 1000, 0, 0);
    let mut desc = Vec::new();
    desc.extend_from_slice(&10_u16.to_le_bytes());
    desc.push(0); // kind
    desc.push(0); // flags
    desc.push(2); // name_len = 2
    desc.push(0); // unit_len
    desc.push(0); // description_len
    desc.push(0); // attr_count
    desc.push(0); // histogram_bucket_count
    desc.push(0); // reserved
    desc.extend_from_slice(&0_u16.to_le_bytes());
    desc.push(0xFF);
    desc.push(0xFF); // Invalid UTF-8
    frame.extend_from_slice(&desc);
    assert!(decode_metric_batch(&frame).is_none());
}

#[test]
fn decode_metric_batch_rejects_truncated_descriptor() {
    let mut frame = metric_batch_header(1, 0, 100, 1000, 0, 0);
    // Add a descriptor header but don't complete it
    frame.push(10); // partial metric_id
    assert!(decode_metric_batch(&frame).is_none());
}

#[test]
fn decode_metric_batch_rejects_truncated_samples() {
    let mut frame = metric_batch_header(0, 2, 100, 1000, 0, 0);
    frame.extend_from_slice(&metric_sample_bytes(10, 0, 1000, 42.0));
    // Missing second sample
    assert!(decode_metric_batch(&frame).is_none());
}

#[test]
fn decode_metric_batch_rejects_extra_trailing_bytes() {
    let mut frame = metric_batch_header(0, 0, 100, 1000, 0, 0);
    frame.push(0xFF); // Extra byte
    assert!(decode_metric_batch(&frame).is_none());
}

#[test]
fn decode_metric_batch_multi_descriptors_then_samples() {
    let mut frame = metric_batch_header(2, 2, 100, 1000, 1000, 3000);
    // First descriptor: gauge temperature
    frame.extend_from_slice(&metric_descriptor_bytes(
        10,
        0,
        0,
        "temperature",
        "Cel",
        "",
        &[],
        None,
    ));
    // Second descriptor: counter requests
    frame.extend_from_slice(&metric_descriptor_bytes(
        20,
        1,
        1,
        "requests",
        "1",
        "",
        &[],
        None,
    ));
    // Two samples referencing different metrics
    frame.extend_from_slice(&metric_sample_bytes(10, 0, 1000, 25.5));
    frame.extend_from_slice(&metric_sample_bytes(20, 0, 3000, 10.0));

    let ev = decode_metric_batch(&frame).expect("multi-descriptor batch decodes");
    match ev {
        DiagEvent::MetricBatch {
            descriptors,
            samples,
            ..
        } => {
            assert_eq!(descriptors.len(), 2);
            assert_eq!(samples.len(), 2);
            assert_eq!(samples[0].metric_id, 10);
            assert_eq!(samples[1].metric_id, 20);
        }
        _ => panic!("expected MetricBatch"),
    }
}

#[test]
fn decode_metric_batch_samples_only_follow_up() {
    // A follow-up batch with descriptor_count=0 and only samples
    let mut frame = metric_batch_header(0, 1, 100, 2000, 5000, 6000);
    frame.extend_from_slice(&metric_sample_bytes(10, 0, 5000, 50.0));

    let ev = decode_metric_batch(&frame).expect("samples-only batch decodes");
    match ev {
        DiagEvent::MetricBatch {
            descriptors,
            samples,
            cycle_count,
            ..
        } => {
            assert!(descriptors.is_empty());
            assert_eq!(samples.len(), 1);
            assert_eq!(cycle_count, 2000);
        }
        _ => panic!("expected MetricBatch"),
    }
}

#[test]
fn no_part_of_a_metric_batch_is_one() {
    let mut frame = metric_batch_header(0, 2, 100, 1, 0, 0);
    frame.extend_from_slice(&metric_sample_bytes(1, 0, 5, 1.5));
    frame.extend_from_slice(&metric_sample_bytes(2, 0, 6, 2.5));
    assert!(decode_metric_batch(&frame).is_some());
    for n in 0..frame.len() {
        assert!(decode_metric_batch(&frame[..n]).is_none());
    }
    for n in 1..40 {
        assert!(decode_metric_batch(&[&frame[..], &vec![0u8; n][..]].concat()).is_none());
    }
}
