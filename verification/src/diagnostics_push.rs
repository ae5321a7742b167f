//! The batches that PLCs push: task diagnostics, metrics and aggregated metrics.
use vstd::prelude::*;
use vstd::utf8::{decode_utf8, valid_utf8};

use crate::diagnostics::{
    viewed, DiagEvent, DiagEventView, DiagSample, MetricAggregateSample, MetricAggregateSampleView, MetricBodySchema,
    MetricDescriptor, MetricDescriptorView, MetricSample, METRIC_FLAG_HAS_SAMPLE_TS, METRIC_FLAG_HAS_TRACE_CTX,
    METRIC_SAMPLE_TS_SIZE, PUSH_BATCH_EVENT_TYPE, PUSH_BATCH_HEADER_SIZE, PUSH_BATCH_MAX_SAMPLES,
    PUSH_METRIC_AGG_EVENT_TYPE, PUSH_METRIC_AGG_HEADER_SIZE, PUSH_METRIC_AGG_TRACE_SIZE, PUSH_METRIC_EVENT_TYPE,
    PUSH_SAMPLE_SIZE, PUSH_WIRE_VERSION,
};
use crate::models::{Lreal, Real};
use crate::text::{lossy_utf16, readable, text_from_utf16_lossy, text_from_utf8, text_from_utf8_lossy};
use crate::value::{units, units_of};
use crate::wire::{
    copy_range, get_array16, get_array8, get_i64, get_u16, get_u32, get_u64, i64_at, u16_at, u32_at, u64_at,
};

verus! {

/// `s` without the `pad`s at its end.
pub open spec fn trimmed<T>(s: Seq<T>, pad: T) -> Seq<T>
    decreases s.len(),
{
    if s.len() > 0 && s.last() == pad { trimmed(s.drop_last(), pad) } else { s }
}

/// The text in the `n` bytes from `pos` on, if they are there and are UTF-8.
pub open spec fn text_at(s: Seq<u8>, pos: int, n: int) -> Option<Seq<char>> {
    if pos + n <= s.len() && valid_utf8(s.subrange(pos, pos + n)) {
        Some(decode_utf8(s.subrange(pos, pos + n)))
    } else {
        None
    }
}

/// The cycle written at `at`.
pub open spec fn diag_sample_at(s: Seq<u8>, at: int) -> DiagSample {
    DiagSample {
        cycle_count: u32_at(s, at),
        exec_time_us: u32_at(s, at + 4),
        dc_time: i64_at(s, at + 8),
        flags: s[at + 16],
    }
}

/// The task batch in `s`: 80 bytes of header and 24 for each of at most 1024 samples. What
/// follows them is not read.
pub open spec fn batch_of(s: Seq<u8>) -> Option<DiagEventView> {
    if s.len() < PUSH_BATCH_HEADER_SIZE || s[0] != PUSH_WIRE_VERSION || s[1] != PUSH_BATCH_EVENT_TYPE || u16_at(s, 12)
        > PUSH_BATCH_MAX_SAMPLES || s.len() < PUSH_BATCH_HEADER_SIZE + PUSH_SAMPLE_SIZE * u16_at(s, 12) {
        None
    } else {
        Some(
            DiagEventView::TaskDiagBatch {
                task_port: u16_at(s, 8),
                task_name: readable(trimmed(s.subrange(60, 80), 0)),
                task_obj_id: u32_at(s, 4),
                window_ms: u16_at(s, 10),
                cycle_count_start: u32_at(s, 16),
                cycle_count_end: u32_at(s, 20),
                dc_time_start: i64_at(s, 24),
                dc_time_end: i64_at(s, 32),
                exec_time_min_us: u32_at(s, 40),
                exec_time_max_us: u32_at(s, 44),
                exec_time_avg_us: u32_at(s, 48),
                cycle_exceed_count: u32_at(s, 52),
                rt_violation_count: u32_at(s, 56),
                samples: Seq::new(u16_at(s, 12) as nat, |i: int| diag_sample_at(s, 80 + 24 * i)),
            },
        )
    }
}

/// `n` attributes from `pos` on, after those already read, and the place behind them.
pub open spec fn pairs_at(s: Seq<u8>, pos: int, n: nat, found: Seq<(Seq<char>, Seq<char>)>) -> Option<
    (Seq<(Seq<char>, Seq<char>)>, int),
>
    decreases n,
{
    if n == 0 {
        Some((found, pos))
    } else if pos + 2 > s.len() {
        None
    } else {
        match (text_at(s, pos + 2, s[pos] as int), text_at(s, pos + 2 + s[pos], s[pos + 1] as int)) {
            (Some(k), Some(v)) => pairs_at(s, pos + 2 + s[pos] + s[pos + 1], (n - 1) as nat, found.push((k, v))),
            _ => None,
        }
    }
}

/// The bounds of a histogram from `pos` on.
pub open spec fn bounds_at(s: Seq<u8>, pos: int, n: nat) -> Seq<Real> {
    Seq::new(n, |i: int| Real(u32_at(s, pos + 4 * i)))
}

/// The descriptor that starts at `pos`, and the place behind it. It has at most eight
/// attributes; only a histogram has bounds.
pub open spec fn descriptor_at(s: Seq<u8>, pos: int) -> Option<(MetricDescriptorView, int)> {
    if pos + 12 > s.len() || s[pos + 7] > 8 {
        None
    } else {
        let at_unit = pos + 12 + s[pos + 4];
        let at_text = at_unit + s[pos + 5];
        let at_pairs = at_text + s[pos + 6];
        match (
            text_at(s, pos + 12, s[pos + 4] as int),
            text_at(s, at_unit, s[pos + 5] as int),
            text_at(s, at_text, s[pos + 6] as int),
            pairs_at(s, at_pairs, s[pos + 7] as nat, Seq::empty()),
        ) {
            (Some(name), Some(unit), Some(description), Some((attributes, end))) => {
                let plain = MetricDescriptorView {
                    metric_id: u16_at(s, pos),
                    kind: s[pos + 2],
                    flags: s[pos + 3],
                    name,
                    unit,
                    description,
                    attributes,
                    histogram_bounds: None,
                };
                if s[pos + 2] != 2 || s[pos + 8] == 0 {
                    Some((plain, end))
                } else if end + 4 * s[pos + 8] > s.len() {
                    None
                } else {
                    Some(
                        (
                            MetricDescriptorView {
                                histogram_bounds: Some(bounds_at(s, end, s[pos + 8] as nat)),
                                ..plain
                            },
                            end + 4 * s[pos + 8],
                        ),
                    )
                }
            },
            _ => None,
        }
    }
}

/// `n` descriptors from `pos` on, after those already read, and the place behind them.
pub open spec fn descriptors_at(s: Seq<u8>, pos: int, n: nat, found: Seq<MetricDescriptorView>) -> Option<
    (Seq<MetricDescriptorView>, int),
>
    decreases n,
{
    if n == 0 {
        Some((found, pos))
    } else {
        match descriptor_at(s, pos) {
            None => None,
            Some((d, p)) => descriptors_at(s, p, (n - 1) as nat, found.push(d)),
        }
    }
}

/// The value written at `at`.
pub open spec fn metric_sample_at(s: Seq<u8>, at: int) -> MetricSample {
    MetricSample {
        metric_id: u16_at(s, at),
        flags: s[at + 2],
        dc_time: i64_at(s, at + 4),
        value: Real(u32_at(s, at + 12)),
    }
}

/// The metric batch in `s`: 32 bytes of header, the descriptors, and 16 bytes for each sample,
/// with nothing behind them.
pub open spec fn metric_batch_of(s: Seq<u8>) -> Option<DiagEventView> {
    if s.len() < 32 || s[0] != PUSH_WIRE_VERSION || s[1] != PUSH_METRIC_EVENT_TYPE {
        None
    } else {
        match descriptors_at(s, 32, u16_at(s, 4) as nat, Seq::empty()) {
            None => None,
            Some((descriptors, at)) => if at + 16 * u16_at(s, 6) != s.len() {
                None
            } else {
                Some(
                    DiagEventView::MetricBatch {
                        window_ms: u16_at(s, 8),
                        cycle_count: u32_at(s, 12),
                        dc_time_start: i64_at(s, 16),
                        dc_time_end: i64_at(s, 24),
                        descriptors,
                        samples: Seq::new(u16_at(s, 6) as nat, |i: int| metric_sample_at(s, at + 16 * i)),
                    },
                )
            },
        }
    }
}

/// The number of bits set in `mask`.
pub open spec fn bit_count(mask: u8) -> int {
    mask % 2 + (mask / 2) % 2 + (mask / 4) % 2 + (mask / 8) % 2 + (mask / 16) % 2 + (mask / 32) % 2 + (mask / 64) % 2
        + mask / 128
}

/// The bytes of a sample fit its schema.
pub open spec fn fits(schema: MetricBodySchema, size: u32, mask: u8) -> bool {
    size > 0 && match schema {
        MetricBodySchema::Bool => size == 1,
        MetricBodySchema::Numeric => size == 8,
        MetricBodySchema::NumericAggregated => size == 8 * bit_count(mask),
        _ => true,
    }
}

/// The sample of `size` bytes written at `at`.
pub open spec fn aggregate_sample_at(
    s: Seq<u8>,
    at: int,
    schema: MetricBodySchema,
    size: int,
    mask: u8,
) -> MetricAggregateSampleView {
    match schema {
        MetricBodySchema::Bool => MetricAggregateSampleView::Bool(s[at] != 0),
        MetricBodySchema::Numeric => MetricAggregateSampleView::Numeric(Lreal(u64_at(s, at))),
        MetricBodySchema::Discrete => MetricAggregateSampleView::Discrete(s.subrange(at, at + size)),
        MetricBodySchema::String => MetricAggregateSampleView::String(
            readable(trimmed(s.subrange(at, at + size), 0)),
        ),
        MetricBodySchema::Wstring => MetricAggregateSampleView::Wstring(
            lossy_utf16(trimmed(units(s.subrange(at, at + size)), 0)),
        ),
        MetricBodySchema::NumericAggregated => MetricAggregateSampleView::NumericAggregated {
            stat_mask: mask,
            values: Seq::new(bit_count(mask) as nat, |k: int| Lreal(u64_at(s, at + 8 * k))),
        },
    }
}

/// The flag `bit` is set.
pub open spec fn flagged(flags: u8, bit: u8) -> bool {
    flags & bit != 0
}

/// The bytes of the trace context.
pub open spec fn trace_size(flags: u8) -> int {
    if flagged(flags, METRIC_FLAG_HAS_TRACE_CTX) { PUSH_METRIC_AGG_TRACE_SIZE as int } else { 0 }
}

/// The bytes before each sample.
pub open spec fn lead_size(flags: u8) -> int {
    if flagged(flags, METRIC_FLAG_HAS_SAMPLE_TS) { METRIC_SAMPLE_TS_SIZE as int } else { 0 }
}

/// The aggregate batch in `s`: 52 bytes of header, the trace context if flagged, name, unit, and
/// the samples, each with its cycle offset before it if flagged. What follows is not read.
pub open spec fn aggregate_of(s: Seq<u8>) -> Option<DiagEventView> {
    if s.len() < PUSH_METRIC_AGG_HEADER_SIZE || s[0] != PUSH_WIRE_VERSION || s[1] != PUSH_METRIC_AGG_EVENT_TYPE {
        None
    } else {
        let flags = s[2];
        let size = u32_at(s, 4);
        let count = u32_at(s, 8);
        let mask = s[17];
        let at_name = 52 + trace_size(flags);
        let at_unit = at_name + s[48];
        let at_body = at_unit + s[49];
        let lead = lead_size(flags);
        match (MetricBodySchema::of(s[3]), text_at(s, at_name, s[48] as int), text_at(s, at_unit, s[49] as int)) {
            (Some(schema), Some(name), Some(unit)) => if !fits(schema, size, mask) || at_body + count * (lead + size)
                > s.len() {
                None
            } else {
                Some(
                    DiagEventView::MetricAggregateBatch {
                        metric_id: u32_at(s, 12),
                        task_index: s[16],
                        flags,
                        body_schema: schema,
                        sample_size: size,
                        stat_mask: mask,
                        cycle_count_start: u32_at(s, 20),
                        cycle_count_end: u32_at(s, 24),
                        dc_time_start: i64_at(s, 32),
                        dc_time_end: i64_at(s, 40),
                        name,
                        unit,
                        trace_id: if flagged(flags, METRIC_FLAG_HAS_TRACE_CTX) { Some(s.subrange(52, 68)) } else { None },
                        span_id: if flagged(flags, METRIC_FLAG_HAS_TRACE_CTX) { Some(s.subrange(68, 76)) } else { None },
                        samples: Seq::new(
                            count as nat,
                            |i: int|
                                aggregate_sample_at(s, at_body + i * (lead + size) + lead, schema, size as int, mask),
                        ),
                        sample_cycle_offsets: if flagged(flags, METRIC_FLAG_HAS_SAMPLE_TS) {
                            Some(Seq::new(count as nat, |i: int| u16_at(s, at_body + i * (lead + size))))
                        } else {
                            None
                        },
                    },
                )
            },
            _ => None,
        }
    }
}

/// No frame is a batch of two kinds.
pub proof fn law_batch_kinds_exclude_each_other(s: Seq<u8>)
    ensures
        batch_of(s) is Some ==> metric_batch_of(s) is None && aggregate_of(s) is None,
        metric_batch_of(s) is Some ==> aggregate_of(s) is None,
{
}

/// A task batch has as many samples as its header says, never more than 1024, and a frame cut
/// short is none.
pub proof fn law_batch_length(s: Seq<u8>, n: int)
    requires
        batch_of(s) is Some,
        0 <= n < 80 + 24 * u16_at(s, 12),
    ensures
        batch_of(s) matches Some(DiagEventView::TaskDiagBatch { samples, .. }) && samples.len() == u16_at(s, 12),
        u16_at(s, 12) <= 1024,
        batch_of(s.take(n)) is None,
{
    if n >= 80 {
        assert(u16_at(s.take(n), 12) == u16_at(s, 12));
    }
}

/// The number of bytes of `bytes` before the zeros at its end.
fn trimmed_len(bytes: &[u8]) -> (end: usize)
    ensures
        end <= bytes@.len(),
        bytes@.take(end as int) == trimmed(bytes@, 0),
{
    let mut end: usize = bytes.len();
    assert(bytes@.take(end as int) =~= bytes@);
    while end > 0 && bytes[end - 1] == 0
        invariant
            end <= bytes@.len(),
            trimmed(bytes@.take(end as int), 0) == trimmed(bytes@, 0),
        decreases end,
    {
        assert(bytes@.take(end as int).drop_last() =~= bytes@.take(end - 1));
        end = end - 1;
    }
    end
}

/// The same for 16-bit units.
fn trimmed_units(units: &[u16]) -> (end: usize)
    ensures
        end <= units@.len(),
        units@.take(end as int) == trimmed(units@, 0),
{
    let mut end: usize = units.len();
    assert(units@.take(end as int) =~= units@);
    while end > 0 && units[end - 1] == 0
        invariant
            end <= units@.len(),
            trimmed(units@.take(end as int), 0) == trimmed(units@, 0),
        decreases end,
    {
        assert(units@.take(end as int).drop_last() =~= units@.take(end - 1));
        end = end - 1;
    }
    end
}

/// The text of a field that zeros fill up.
fn decode_task_name(bytes: &[u8]) -> (r: String)
    ensures
        r@ == readable(trimmed(bytes@, 0)),
{
    let end: usize = trimmed_len(bytes);
    assert(bytes@.subrange(0, end as int) =~= bytes@.take(end as int));
    text_from_utf8_lossy(vstd::slice::slice_subrange(bytes, 0, end))
}

/// Decodes a task batch.
pub fn decode_batch(bytes: &[u8]) -> (r: Option<DiagEvent>)
    ensures
        viewed(r) == batch_of(bytes@),
{
    if bytes.len() < PUSH_BATCH_HEADER_SIZE {
        return None;
    }
    if bytes[0] != PUSH_WIRE_VERSION || bytes[1] != PUSH_BATCH_EVENT_TYPE {
        return None;
    }
    let sample_count: usize = get_u16(bytes, 12) as usize;
    if sample_count > PUSH_BATCH_MAX_SAMPLES {
        return None;
    }
    if bytes.len() < PUSH_BATCH_HEADER_SIZE + sample_count * PUSH_SAMPLE_SIZE {
        return None;
    }
    let ghost s = bytes@;
    let mut samples: Vec<DiagSample> = Vec::new();
    let mut i: usize = 0;
    while i < sample_count
        invariant
            s == bytes@,
            i <= sample_count <= 1024,
            80 + 24 * sample_count <= s.len(),
            samples@ =~= Seq::new(i as nat, |i: int| diag_sample_at(s, 80 + 24 * i)),
        decreases sample_count - i,
    {
        let off: usize = PUSH_BATCH_HEADER_SIZE + i * PUSH_SAMPLE_SIZE;
        samples.push(
            DiagSample {
                cycle_count: get_u32(bytes, off),
                exec_time_us: get_u32(bytes, off + 4),
                dc_time: get_i64(bytes, off + 8),
                flags: bytes[off + 16],
            },
        );
        i = i + 1;
    }
    let task_name = decode_task_name(vstd::slice::slice_subrange(bytes, 60, 80));
    Some(
        DiagEvent::TaskDiagBatch {
            task_port: get_u16(bytes, 8),
            task_name,
            task_obj_id: get_u32(bytes, 4),
            window_ms: get_u16(bytes, 10),
            cycle_count_start: get_u32(bytes, 16),
            cycle_count_end: get_u32(bytes, 20),
            dc_time_start: get_i64(bytes, 24),
            dc_time_end: get_i64(bytes, 32),
            exec_time_min_us: get_u32(bytes, 40),
            exec_time_max_us: get_u32(bytes, 44),
            exec_time_avg_us: get_u32(bytes, 48),
            cycle_exceed_count: get_u32(bytes, 52),
            rt_violation_count: get_u32(bytes, 56),
            samples,
        },
    )
}

/// The text in the `n` bytes from `pos` on.
fn read_text(bytes: &[u8], pos: usize, n: usize) -> (r: Option<String>)
    requires
        pos <= bytes@.len(),
        n <= 255,
    ensures
        viewed(r) == text_at(bytes@, pos as int, n as int),
{
    if bytes.len() - pos < n {
        return None;
    }
    match text_from_utf8(vstd::slice::slice_subrange(bytes, pos, pos + n)) {
        Ok(text) => Some(text),
        Err(_) => None,
    }
}

fn read_pairs(bytes: &[u8], from: usize, n: usize) -> (r: Option<(Vec<(String, String)>, usize)>)
    requires
        from <= bytes@.len(),
    ensures
        match r {
            Some((pairs, end)) => end <= bytes@.len() && pairs_at(bytes@, from as int, n as nat, Seq::empty()) == Some(
                (pairs@.map_values(|a: (String, String)| (a.0@, a.1@)), end as int),
            ),
            None => pairs_at(bytes@, from as int, n as nat, Seq::empty()) is None,
        },
{
    let mut pairs: Vec<(String, String)> = Vec::new();
    let mut pos: usize = from;
    let mut k: usize = n;
    let ghost s = bytes@;
    let ghost all = pairs_at(s, from as int, n as nat, Seq::empty());
    let ghost mut found: Seq<(Seq<char>, Seq<char>)> = Seq::empty();
    assert(pairs@.map_values(|a: (String, String)| (a.0@, a.1@)) =~= found);
    while k > 0
        invariant
            s == bytes@,
            pos <= s.len(),
            found == pairs@.map_values(|a: (String, String)| (a.0@, a.1@)),
            pairs_at(s, pos as int, k as nat, found) == all,
            all == pairs_at(bytes@, from as int, n as nat, Seq::empty()),
        decreases k,
    {
        if bytes.len() - pos < 2 {
            return None;
        }
        let key_len: usize = bytes[pos] as usize;
        let value_len: usize = bytes[pos + 1] as usize;
        let key = match read_text(bytes, pos + 2, key_len) {
            Some(t) => t,
            None => {
                return None;
            },
        };
        let value = match read_text(bytes, pos + 2 + key_len, value_len) {
            Some(t) => t,
            None => {
                return None;
            },
        };
        pos = pos + 2 + key_len + value_len;
        let ghost pair = (key@, value@);
        pairs.push((key, value));
        proof {
            assert(pairs@.map_values(|a: (String, String)| (a.0@, a.1@)) =~= found.push(pair));
            found = found.push(pair);
        }
        k = k - 1;
    }
    Some((pairs, pos))
}

/// Reads the descriptor that starts at `from`; gives it and the place behind it.
fn parse_descriptor(bytes: &[u8], from: usize) -> (r: Option<(MetricDescriptor, usize)>)
    requires
        from <= bytes@.len(),
    ensures
        match r {
            Some((d, end)) => end <= bytes@.len() && descriptor_at(bytes@, from as int) == Some((d@, end as int)),
            None => descriptor_at(bytes@, from as int) is None,
        },
{
    if bytes.len() - from < 12 {
        return None;
    }
    let metric_id: u16 = get_u16(bytes, from);
    let kind: u8 = bytes[from + 2];
    let flags: u8 = bytes[from + 3];
    let name_len: usize = bytes[from + 4] as usize;
    let unit_len: usize = bytes[from + 5] as usize;
    let description_len: usize = bytes[from + 6] as usize;
    let attr_count: usize = bytes[from + 7] as usize;
    let bucket_count: usize = bytes[from + 8] as usize;
    if attr_count > 8 {
        return None;
    }
    let at_name: usize = from + 12;
    let name = match read_text(bytes, at_name, name_len) {
        Some(t) => t,
        None => {
            return None;
        },
    };
    let at_unit: usize = at_name + name_len;
    let unit = match read_text(bytes, at_unit, unit_len) {
        Some(t) => t,
        None => {
            return None;
        },
    };
    let at_text: usize = at_unit + unit_len;
    let description = match read_text(bytes, at_text, description_len) {
        Some(t) => t,
        None => {
            return None;
        },
    };
    let at_pairs: usize = at_text + description_len;
    let (attributes, end) = match read_pairs(bytes, at_pairs, attr_count) {
        Some(p) => p,
        None => {
            return None;
        },
    };
    if kind != 2 || bucket_count == 0 {
        return Some(
            (
                MetricDescriptor {
                    metric_id,
                    kind,
                    flags,
                    name,
                    unit,
                    description,
                    attributes,
                    histogram_bounds: None,
                },
                end,
            ),
        );
    }
    if bytes.len() - end < bucket_count * 4 {
        return None;
    }
    let ghost s = bytes@;
    let mut bounds: Vec<Real> = Vec::new();
    let mut i: usize = 0;
    while i < bucket_count
        invariant
            s == bytes@,
            i <= bucket_count <= 255,
            end + 4 * bucket_count <= s.len(),
            bounds@ =~= bounds_at(s, end as int, i as nat),
        decreases bucket_count - i,
    {
        assert(end + 4 * bucket_count <= bytes.len());
        bounds.push(Real(get_u32(bytes, end + i * 4)));
        i = i + 1;
    }
    Some(
        (
            MetricDescriptor {
                metric_id,
                kind,
                flags,
                name,
                unit,
                description,
                attributes,
                histogram_bounds: Some(bounds),
            },
            end + bucket_count * 4,
        ),
    )
}

/// Decodes a metric batch.
pub fn decode_metric_batch(bytes: &[u8]) -> (r: Option<DiagEvent>)
    ensures
        viewed(r) == metric_batch_of(bytes@),
{
    if bytes.len() < 32 {
        return None;
    }
    if bytes[0] != PUSH_WIRE_VERSION || bytes[1] != PUSH_METRIC_EVENT_TYPE {
        return None;
    }
    let descriptor_count: usize = get_u16(bytes, 4) as usize;
    let sample_count: usize = get_u16(bytes, 6) as usize;
    let ghost s = bytes@;
    let ghost all = descriptors_at(s, 32, descriptor_count as nat, Seq::empty());
    let ghost mut found: Seq<MetricDescriptorView> = Seq::empty();
    let mut descriptors: Vec<MetricDescriptor> = Vec::new();
    let mut offset: usize = 32;
    let mut k: usize = descriptor_count;
    assert(descriptors@.map_values(|d: MetricDescriptor| d@) =~= found);
    while k > 0
        invariant
            s == bytes@,
            32 <= offset <= s.len(),
            found == descriptors@.map_values(|d: MetricDescriptor| d@),
            descriptors_at(s, offset as int, k as nat, found) == all,
            all == descriptors_at(s, 32, u16_at(s, 4) as nat, Seq::empty()),
            s.len() >= 32,
            s[0] == PUSH_WIRE_VERSION,
            s[1] == PUSH_METRIC_EVENT_TYPE,
        decreases k,
    {
        match parse_descriptor(bytes, offset) {
            None => {
                return None;
            },
            Some((d, end)) => {
                let ghost view = d@;
                assert(end >= 32) by {
                    lemma_descriptor_forward(s, offset as int);
                }
                descriptors.push(d);
                offset = end;
                proof {
                    assert(descriptors@.map_values(|d: MetricDescriptor| d@) =~= found.push(view));
                    found = found.push(view);
                }
            },
        }
        k = k - 1;
    }
    if bytes.len() - offset != sample_count * 16 {
        return None;
    }
    let mut samples: Vec<MetricSample> = Vec::new();
    let mut i: usize = 0;
    while i < sample_count
        invariant
            s == bytes@,
            i <= sample_count <= 65535,
            offset + 16 * sample_count == s.len(),
            samples@ =~= Seq::new(i as nat, |i: int| metric_sample_at(s, offset + 16 * i)),
        decreases sample_count - i,
    {
        assert(offset + 16 * sample_count == bytes.len());
        let at: usize = offset + i * 16;
        samples.push(
            MetricSample {
                metric_id: get_u16(bytes, at),
                flags: bytes[at + 2],
                dc_time: get_i64(bytes, at + 4),
                value: Real(get_u32(bytes, at + 12)),
            },
        );
        i = i + 1;
    }
    Some(
        DiagEvent::MetricBatch {
            window_ms: get_u16(bytes, 8),
            cycle_count: get_u32(bytes, 12),
            dc_time_start: get_i64(bytes, 16),
            dc_time_end: get_i64(bytes, 24),
            descriptors,
            samples,
        },
    )
}

/// The number of bits set in `mask`.
fn count_bits(mask: u8) -> (r: u8)
    ensures
        r == bit_count(mask),
        r <= 8,
{
    mask % 2 + (mask / 2) % 2 + (mask / 4) % 2 + (mask / 8) % 2 + (mask / 16) % 2 + (mask / 32) % 2 + (mask / 64) % 2
        + mask / 128
}

fn size_fits(schema: MetricBodySchema, size: u32, mask: u8) -> (r: bool)
    ensures
        r == fits(schema, size, mask),
{
    if size == 0 {
        return false;
    }
    match schema {
        MetricBodySchema::Bool => size == 1,
        MetricBodySchema::Numeric => size == 8,
        MetricBodySchema::NumericAggregated => size == 8 * count_bits(mask) as u32,
        _ => true,
    }
}

fn decode_aggregate_sample(bytes: &[u8], at: usize, schema: MetricBodySchema, size: usize, mask: u8) -> (r:
    MetricAggregateSample)
    requires
        at + size <= bytes@.len(),
        size <= u32::MAX,
        fits(schema, size as u32, mask),
    ensures
        r@ == aggregate_sample_at(bytes@, at as int, schema, size as int, mask),
{
    assert(at + size <= bytes.len());
    match schema {
        MetricBodySchema::Bool => MetricAggregateSample::Bool(bytes[at] != 0),
        MetricBodySchema::Numeric => MetricAggregateSample::Numeric(Lreal(get_u64(bytes, at))),
        MetricBodySchema::Discrete => MetricAggregateSample::Discrete(copy_range(bytes, at, at + size)),
        MetricBodySchema::String => MetricAggregateSample::String(
            decode_task_name(vstd::slice::slice_subrange(bytes, at, at + size)),
        ),
        MetricBodySchema::Wstring => {
            let all = units_of(vstd::slice::slice_subrange(bytes, at, at + size));
            let end: usize = trimmed_units(&all);
            assert(all@.subrange(0, end as int) =~= all@.take(end as int));
            MetricAggregateSample::Wstring(text_from_utf16_lossy(vstd::slice::slice_subrange(&all, 0, end)))
        },
        MetricBodySchema::NumericAggregated => {
            let n: usize = count_bits(mask) as usize;
            let ghost s = bytes@;
            let mut values: Vec<Lreal> = Vec::new();
            let mut k: usize = 0;
            while k < n
                invariant
                    s == bytes@,
                    k <= n <= 8,
                    at + 8 * n <= s.len(),
                    values@ =~= Seq::new(k as nat, |k: int| Lreal(u64_at(s, at + 8 * k))),
                decreases n - k,
            {
                assert(at + 8 * n <= bytes.len());
                values.push(Lreal(get_u64(bytes, at + k * 8)));
                k = k + 1;
            }
            MetricAggregateSample::NumericAggregated { stat_mask: mask, values }
        },
    }
}

/// What is read of the body of an aggregate batch.
struct AggregateBody {
    samples: Vec<MetricAggregateSample>,
    offsets: Vec<u16>,
}

/// Reads `count` samples, each with `lead` bytes before it.
fn decode_aggregate_body(
    bytes: &[u8],
    at_body: usize,
    count: u32,
    lead: usize,
    schema: MetricBodySchema,
    size: usize,
    mask: u8,
) -> (r: Option<AggregateBody>)
    requires
        at_body <= bytes@.len(),
        lead == 0 || lead == 2,
        size <= u32::MAX,
        fits(schema, size as u32, mask),
    ensures
        r is Some <==> at_body + count * (lead + size) <= bytes@.len(),
        r matches Some(body) ==> {
            &&& body.samples@.map_values(|x: MetricAggregateSample| x@) == Seq::new(
                count as nat,
                |i: int| aggregate_sample_at(bytes@, at_body + i * (lead + size) + lead, schema, size as int, mask),
            )
            &&& lead == 2 ==> body.offsets@ == Seq::new(
                count as nat,
                |i: int| u16_at(bytes@, at_body + i * (lead + size)),
            )
        },
{
    let ghost s = bytes@;
    let ghost stride: int = lead + size;
    let mut samples: Vec<MetricAggregateSample> = Vec::new();
    let mut offsets: Vec<u16> = Vec::new();
    let mut at: usize = at_body;
    let mut i: u32 = 0;
    assert(0 * stride == 0);
    while i < count
        invariant
            s == bytes@,
            stride == lead + size,
            stride >= 1,
            i <= count,
            at_body <= at <= s.len(),
            at == at_body + i * stride,
            lead == 0 || lead == 2,
            size <= u32::MAX,
            fits(schema, size as u32, mask),
            samples@.map_values(|x: MetricAggregateSample| x@) =~= Seq::new(
                i as nat,
                |i: int| aggregate_sample_at(s, at_body + i * stride + lead, schema, size as int, mask),
            ),
            lead == 2 ==> offsets@ =~= Seq::new(i as nat, |i: int| u16_at(s, at_body + i * stride)),
        decreases count - i,
    {
        proof {
            assert((i + 1) * stride == i * stride + stride) by (nonlinear_arith);
            assert((i + 1) * stride <= count * stride) by (nonlinear_arith)
                requires
                    i + 1 <= count,
                    stride >= 1,
            ;
        }
        let left: usize = bytes.len() - at;
        if left < lead || left - lead < size {
            return None;
        }
        if lead == 2 {
            offsets.push(get_u16(bytes, at));
        }
        let sample = decode_aggregate_sample(bytes, at + lead, schema, size, mask);
        let ghost view = sample@;
        let ghost before = samples@;
        samples.push(sample);
        assert(samples@.map_values(|x: MetricAggregateSample| x@) =~= before.map_values(
            |x: MetricAggregateSample| x@,
        ).push(view));
        at = at + lead + size;
        i = i + 1;
    }
    Some(AggregateBody { samples, offsets })
}

/// Decodes an aggregate batch.
pub fn decode_metric_aggregate(bytes: &[u8]) -> (r: Option<DiagEvent>)
    ensures
        viewed(r) == aggregate_of(bytes@),
{
    if bytes.len() < PUSH_METRIC_AGG_HEADER_SIZE {
        return None;
    }
    if bytes[0] != PUSH_WIRE_VERSION || bytes[1] != PUSH_METRIC_AGG_EVENT_TYPE {
        return None;
    }
    let flags: u8 = bytes[2];
    let schema = match MetricBodySchema::from_byte(bytes[3]) {
        Some(schema) => schema,
        None => {
            return None;
        },
    };
    let sample_size: u32 = get_u32(bytes, 4);
    let sample_count: u32 = get_u32(bytes, 8);
    let stat_mask: u8 = bytes[17];
    let name_len: usize = bytes[48] as usize;
    let unit_len: usize = bytes[49] as usize;
    if !size_fits(schema, sample_size, stat_mask) {
        return None;
    }
    let has_trace = flags & METRIC_FLAG_HAS_TRACE_CTX != 0;
    let has_offsets = flags & METRIC_FLAG_HAS_SAMPLE_TS != 0;
    if has_trace && bytes.len() - PUSH_METRIC_AGG_HEADER_SIZE < PUSH_METRIC_AGG_TRACE_SIZE {
        return None;
    }
    let at_name: usize = if has_trace {
        PUSH_METRIC_AGG_HEADER_SIZE + PUSH_METRIC_AGG_TRACE_SIZE
    } else {
        PUSH_METRIC_AGG_HEADER_SIZE
    };
    let name = match read_text(bytes, at_name, name_len) {
        Some(t) => t,
        None => {
            return None;
        },
    };
    let unit = match read_text(bytes, at_name + name_len, unit_len) {
        Some(t) => t,
        None => {
            return None;
        },
    };
    let at_body: usize = at_name + name_len + unit_len;
    let lead: usize = if has_offsets {
        METRIC_SAMPLE_TS_SIZE
    } else {
        0
    };
    let body = match decode_aggregate_body(
        bytes,
        at_body,
        sample_count,
        lead,
        schema,
        sample_size as usize,
        stat_mask,
    ) {
        Some(body) => body,
        None => {
            return None;
        },
    };
    let (trace_id, span_id): (Option<[u8; 16]>, Option<[u8; 8]>) = if has_trace {
        (Some(get_array16(bytes, 52)), Some(get_array8(bytes, 68)))
    } else {
        (None, None)
    };
    let AggregateBody { samples, offsets } = body;
    let sample_cycle_offsets: Option<Vec<u16>> = if has_offsets {
        Some(offsets)
    } else {
        None
    };
    let event = DiagEvent::MetricAggregateBatch {
        metric_id: get_u32(bytes, 12),
        task_index: bytes[16],
        flags,
        body_schema: schema,
        sample_size,
        stat_mask,
        cycle_count_start: get_u32(bytes, 20),
        cycle_count_end: get_u32(bytes, 24),
        dc_time_start: get_i64(bytes, 32),
        dc_time_end: get_i64(bytes, 40),
        name,
        unit,
        trace_id,
        span_id,
        samples,
        sample_cycle_offsets,
    };
    Some(event)
}

proof fn lemma_pairs_forward(s: Seq<u8>, pos: int, n: nat, found: Seq<(Seq<char>, Seq<char>)>)
    ensures
        pairs_at(s, pos, n, found) matches Some((_, end)) ==> end >= pos,
    decreases n,
{
    if n > 0 && pos + 2 <= s.len() {
        match (text_at(s, pos + 2, s[pos] as int), text_at(s, pos + 2 + s[pos], s[pos + 1] as int)) {
            (Some(k), Some(v)) => {
                lemma_pairs_forward(s, pos + 2 + s[pos] + s[pos + 1], (n - 1) as nat, found.push((k, v)));
            },
            _ => {},
        }
    }
}

proof fn lemma_descriptor_forward(s: Seq<u8>, pos: int)
    ensures
        descriptor_at(s, pos) matches Some((_, end)) ==> end >= pos + 12,
{
    if pos + 12 <= s.len() {
        lemma_pairs_forward(
            s,
            pos + 12 + s[pos + 4] + s[pos + 5] + s[pos + 6],
            s[pos + 7] as nat,
            Seq::empty(),
        );
    }
}

} // verus!
