//! Pushed batches are read back from how they stand on the wire.
use vstd::prelude::*;
use vstd::utf8::{encode_utf8, encode_utf8_decode_utf8, encode_utf8_valid_utf8};

use crate::diagnostics::{
    DiagEventView, DiagSample, MetricAggregateSampleView, MetricBodySchema, MetricDescriptorView, MetricSample,
    METRIC_FLAG_HAS_SAMPLE_TS, METRIC_FLAG_HAS_TRACE_CTX, PUSH_BATCH_MAX_SAMPLES,
};
use crate::diagnostics_push::{
    aggregate_of, aggregate_sample_at, batch_of, bit_count, bounds_at, descriptor_at, descriptors_at, diag_sample_at,
    flagged, lead_size, metric_batch_of, metric_sample_at, pairs_at, text_at, trace_size, trimmed,
};
use crate::encoding::{
    le64, lemma_byte_read, lemma_dword_read, lemma_qword_read, lemma_stands_split, lemma_word_read, stands, unsigned64,
};
use crate::models::{Lreal, Real};
use crate::text::readable;
use crate::window_laws::within;
use crate::wire::{i64_at, le16, le32, u16_at, u32_at, u64_at};

verus! {

broadcast use crate::wire::group_wire;

/// A cycle and the bytes that fill up its place.
pub struct WireSample {
    pub sample: DiagSample,
    pub rest: Seq<u8>,
}

impl WireSample {
    pub open spec fn bytes(self) -> Seq<u8> {
        le32(self.sample.cycle_count) + (le32(self.sample.exec_time_us) + (le64(unsigned64(self.sample.dc_time)) + (
        seq![self.sample.flags] + self.rest)))
    }

    pub open spec fn writable(self) -> bool {
        self.rest.len() == 7
    }
}

pub open spec fn samples_bytes(all: Seq<WireSample>) -> Seq<u8>
    decreases all.len(),
{
    if all.len() == 0 {
        Seq::empty()
    } else {
        all[0].bytes() + samples_bytes(all.skip(1))
    }
}

/// A task batch; the bytes that are not read may hold anything.
pub struct WireBatch {
    pub reserved: Seq<u8>,
    pub task_obj_id: u32,
    pub task_port: u16,
    pub window_ms: u16,
    pub gap: Seq<u8>,
    pub cycle_count_start: u32,
    pub cycle_count_end: u32,
    pub dc_time_start: i64,
    pub dc_time_end: i64,
    pub exec_time_min_us: u32,
    pub exec_time_max_us: u32,
    pub exec_time_avg_us: u32,
    pub cycle_exceed_count: u32,
    pub rt_violation_count: u32,
    /// The name's bytes, filled up with zeros.
    pub name: Seq<u8>,
    pub samples: Seq<WireSample>,
}

impl WireBatch {
    pub open spec fn writable(self) -> bool {
        &&& self.reserved.len() == 2
        &&& self.gap.len() == 2
        &&& self.name.len() == 20
        &&& self.samples.len() <= PUSH_BATCH_MAX_SAMPLES
        &&& forall|i: int| 0 <= i < self.samples.len() ==> (#[trigger] self.samples[i]).writable()
    }

    /// The first 16 bytes.
    pub open spec fn start(self) -> Seq<u8> {
        seq![2u8] + (seq![10u8] + (self.reserved + (le32(self.task_obj_id) + (le16(self.task_port) + (le16(
            self.window_ms,
        ) + (le16(self.samples.len() as u16) + self.gap))))))
    }

    /// The window: 24 bytes.
    pub open spec fn window(self) -> Seq<u8> {
        le32(self.cycle_count_start) + (le32(self.cycle_count_end) + (le64(unsigned64(self.dc_time_start)) + le64(
            unsigned64(self.dc_time_end),
        )))
    }

    /// The counts: 20 bytes.
    pub open spec fn counts(self) -> Seq<u8> {
        le32(self.exec_time_min_us) + (le32(self.exec_time_max_us) + (le32(self.exec_time_avg_us) + (le32(
            self.cycle_exceed_count,
        ) + le32(self.rt_violation_count))))
    }

    pub open spec fn bytes(self) -> Seq<u8> {
        self.start() + (self.window() + (self.counts() + (self.name + samples_bytes(self.samples))))
    }

    /// The event that is read.
    pub open spec fn event(self) -> DiagEventView {
        DiagEventView::TaskDiagBatch {
            task_port: self.task_port,
            task_name: readable(trimmed(self.name, 0)),
            task_obj_id: self.task_obj_id,
            window_ms: self.window_ms,
            cycle_count_start: self.cycle_count_start,
            cycle_count_end: self.cycle_count_end,
            dc_time_start: self.dc_time_start,
            dc_time_end: self.dc_time_end,
            exec_time_min_us: self.exec_time_min_us,
            exec_time_max_us: self.exec_time_max_us,
            exec_time_avg_us: self.exec_time_avg_us,
            cycle_exceed_count: self.cycle_exceed_count,
            rt_violation_count: self.rt_violation_count,
            samples: self.samples.map_values(|w: WireSample| w.sample),
        }
    }
}

proof fn lemma_word_at(s: Seq<u8>, p: int, x: u16)
    requires
        stands(s, p, le16(x)),
    ensures
        u16_at(s, p) == x,
{
    lemma_word_read(s, p, x);
}

proof fn lemma_signed_at(s: Seq<u8>, p: int, n: i64)
    requires
        stands(s, p, le64(unsigned64(n))),
    ensures
        i64_at(s, p) == n,
{
    lemma_qword_read(s, p, unsigned64(n));
}

proof fn lemma_sample_at(s: Seq<u8>, p: int, w: WireSample)
    requires
        stands(s, p, w.bytes()),
        w.writable(),
    ensures
        diag_sample_at(s, p) == w.sample,
        w.bytes().len() == 24,
{
    let time = le64(unsigned64(w.sample.dc_time));
    let flags = seq![w.sample.flags];
    lemma_stands_split(s, p, le32(w.sample.cycle_count), le32(w.sample.exec_time_us) + (time + (flags + w.rest)));
    lemma_stands_split(s, p + 4, le32(w.sample.exec_time_us), time + (flags + w.rest));
    lemma_stands_split(s, p + 8, time, flags + w.rest);
    lemma_stands_split(s, p + 16, flags, w.rest);
    lemma_dword_read(s, p, w.sample.cycle_count);
    lemma_dword_read(s, p + 4, w.sample.exec_time_us);
    lemma_signed_at(s, p + 8, w.sample.dc_time);
    lemma_byte_read(s, p + 16, w.sample.flags);
}

proof fn lemma_samples_at(s: Seq<u8>, p: int, all: Seq<WireSample>, i: int)
    requires
        stands(s, p, samples_bytes(all)),
        forall|j: int| 0 <= j < all.len() ==> (#[trigger] all[j]).writable(),
        0 <= i < all.len(),
    ensures
        diag_sample_at(s, p + 24 * i) == all[i].sample,
    decreases all.len(),
{
    let rest = all.skip(1);
    lemma_stands_split(s, p, all[0].bytes(), samples_bytes(rest));
    lemma_sample_at(s, p, all[0]);
    if i > 0 {
        assert forall|j: int| 0 <= j < rest.len() implies (#[trigger] rest[j]).writable() by {
            assert(rest[j] == all[j + 1]);
        }
        lemma_samples_at(s, p + 24, rest, i - 1);
        assert(rest[i - 1] == all[i]);
    }
}

proof fn lemma_samples_len(all: Seq<WireSample>)
    requires
        forall|j: int| 0 <= j < all.len() ==> (#[trigger] all[j]).writable(),
    ensures
        samples_bytes(all).len() == 24 * all.len(),
    decreases all.len(),
{
    if all.len() > 0 {
        let rest = all.skip(1);
        assert forall|j: int| 0 <= j < rest.len() implies (#[trigger] rest[j]).writable() by {
            assert(rest[j] == all[j + 1]);
        }
        lemma_samples_len(rest);
        assert(all[0].writable());
    }
}

proof fn lemma_start_at(s: Seq<u8>, b: WireBatch)
    requires
        stands(s, 0, b.start()),
        b.writable(),
    ensures
        s[0] == 2,
        s[1] == 10,
        u32_at(s, 4) == b.task_obj_id,
        u16_at(s, 8) == b.task_port,
        u16_at(s, 10) == b.window_ms,
        u16_at(s, 12) == b.samples.len(),
        b.start().len() == 16,
{
    let n = le16(b.samples.len() as u16);
    let d = n + b.gap;
    let c = le16(b.task_port) + (le16(b.window_ms) + d);
    lemma_stands_split(s, 0, seq![2u8], seq![10u8] + (b.reserved + (le32(b.task_obj_id) + c)));
    lemma_stands_split(s, 1, seq![10u8], b.reserved + (le32(b.task_obj_id) + c));
    lemma_stands_split(s, 2, b.reserved, le32(b.task_obj_id) + c);
    lemma_stands_split(s, 4, le32(b.task_obj_id), c);
    lemma_stands_split(s, 8, le16(b.task_port), le16(b.window_ms) + d);
    lemma_stands_split(s, 10, le16(b.window_ms), d);
    lemma_stands_split(s, 12, n, b.gap);
    lemma_byte_read(s, 0, 2u8);
    lemma_byte_read(s, 1, 10u8);
    lemma_dword_read(s, 4, b.task_obj_id);
    lemma_word_at(s, 8, b.task_port);
    lemma_word_at(s, 10, b.window_ms);
    lemma_word_at(s, 12, b.samples.len() as u16);
}

proof fn lemma_window_at(s: Seq<u8>, b: WireBatch)
    requires
        stands(s, 16, b.window()),
    ensures
        u32_at(s, 16) == b.cycle_count_start,
        u32_at(s, 20) == b.cycle_count_end,
        i64_at(s, 24) == b.dc_time_start,
        i64_at(s, 32) == b.dc_time_end,
        b.window().len() == 24,
{
    let start = le64(unsigned64(b.dc_time_start));
    let end = le64(unsigned64(b.dc_time_end));
    lemma_stands_split(s, 16, le32(b.cycle_count_start), le32(b.cycle_count_end) + (start + end));
    lemma_stands_split(s, 20, le32(b.cycle_count_end), start + end);
    lemma_stands_split(s, 24, start, end);
    lemma_dword_read(s, 16, b.cycle_count_start);
    lemma_dword_read(s, 20, b.cycle_count_end);
    lemma_signed_at(s, 24, b.dc_time_start);
    lemma_signed_at(s, 32, b.dc_time_end);
}

proof fn lemma_counts_at(s: Seq<u8>, b: WireBatch)
    requires
        stands(s, 40, b.counts()),
    ensures
        u32_at(s, 40) == b.exec_time_min_us,
        u32_at(s, 44) == b.exec_time_max_us,
        u32_at(s, 48) == b.exec_time_avg_us,
        u32_at(s, 52) == b.cycle_exceed_count,
        u32_at(s, 56) == b.rt_violation_count,
        b.counts().len() == 20,
{
    let c = le32(b.cycle_exceed_count) + le32(b.rt_violation_count);
    lemma_stands_split(s, 40, le32(b.exec_time_min_us), le32(b.exec_time_max_us) + (le32(b.exec_time_avg_us) + c));
    lemma_stands_split(s, 44, le32(b.exec_time_max_us), le32(b.exec_time_avg_us) + c);
    lemma_stands_split(s, 48, le32(b.exec_time_avg_us), c);
    lemma_stands_split(s, 52, le32(b.cycle_exceed_count), le32(b.rt_violation_count));
    lemma_dword_read(s, 40, b.exec_time_min_us);
    lemma_dword_read(s, 44, b.exec_time_max_us);
    lemma_dword_read(s, 48, b.exec_time_avg_us);
    lemma_dword_read(s, 52, b.cycle_exceed_count);
    lemma_dword_read(s, 56, b.rt_violation_count);
}

/// A task batch is read back from its bytes, also where more follows them: all its figures, and
/// every cycle in order.
pub proof fn law_task_batch_reads_back(b: WireBatch, after: Seq<u8>)
    requires
        b.writable(),
    ensures
        batch_of(b.bytes() + after) == Some(b.event()),
{
    let s = b.bytes() + after;
    let rest = b.name + samples_bytes(b.samples);
    assert(s.subrange(0, b.bytes().len() as int) =~= b.bytes());
    assert(b.start().len() == 16 && b.window().len() == 24 && b.counts().len() == 20);
    lemma_samples_len(b.samples);
    lemma_stands_split(s, 0, b.start(), b.window() + (b.counts() + rest));
    lemma_stands_split(s, 16, b.window(), b.counts() + rest);
    lemma_stands_split(s, 40, b.counts(), rest);
    lemma_stands_split(s, 60, b.name, samples_bytes(b.samples));
    lemma_start_at(s, b);
    lemma_window_at(s, b);
    lemma_counts_at(s, b);
    let read = Seq::new(u16_at(s, 12) as nat, |i: int| diag_sample_at(s, 80 + 24 * i));
    assert forall|i: int| 0 <= i < b.samples.len() implies #[trigger] read[i] == b.samples[i].sample by {
        lemma_samples_at(s, 80, b.samples, i);
    }
    assert(read =~= b.samples.map_values(|w: WireSample| w.sample));
}

// Aggregate batches.

pub open spec fn schema_byte(schema: MetricBodySchema) -> u8 {
    match schema {
        MetricBodySchema::Bool => 1,
        MetricBodySchema::Numeric => 2,
        MetricBodySchema::Discrete => 3,
        MetricBodySchema::String => 4,
        MetricBodySchema::Wstring => 5,
        MetricBodySchema::NumericAggregated => 6,
    }
}

/// A sample of an aggregate batch: its cycle offset, which is sent if flagged, and its bytes.
pub struct WireAggregateSample {
    pub offset: u16,
    pub body: Seq<u8>,
}

impl WireAggregateSample {
    pub open spec fn bytes(self, flags: u8) -> Seq<u8> {
        (if flagged(flags, METRIC_FLAG_HAS_SAMPLE_TS) { le16(self.offset) } else { Seq::empty() }) + self.body
    }
}

pub open spec fn aggregate_samples_bytes(all: Seq<WireAggregateSample>, flags: u8) -> Seq<u8>
    decreases all.len(),
{
    if all.len() == 0 {
        Seq::empty()
    } else {
        all[0].bytes(flags) + aggregate_samples_bytes(all.skip(1), flags)
    }
}

/// An aggregate batch; the bytes that are not read may hold anything.
pub struct WireAggregate {
    pub flags: u8,
    pub schema: MetricBodySchema,
    pub sample_size: u32,
    pub metric_id: u32,
    pub task_index: u8,
    pub stat_mask: u8,
    pub gap: Seq<u8>,
    pub cycle_count_start: u32,
    pub cycle_count_end: u32,
    pub spare: Seq<u8>,
    pub dc_time_start: i64,
    pub dc_time_end: i64,
    pub tail: Seq<u8>,
    /// Sent if flagged.
    pub trace_id: Seq<u8>,
    /// Sent if flagged.
    pub span_id: Seq<u8>,
    pub name: Seq<char>,
    pub unit: Seq<char>,
    pub samples: Seq<WireAggregateSample>,
}

impl WireAggregate {
    pub open spec fn writable(self) -> bool {
        &&& self.gap.len() == 2
        &&& self.spare.len() == 4
        &&& self.tail.len() == 2
        &&& self.trace_id.len() == 16
        &&& self.span_id.len() == 8
        &&& crate::encoding::fits(self.name)
        &&& crate::encoding::fits(self.unit)
        &&& crate::diagnostics_push::fits(self.schema, self.sample_size, self.stat_mask)
        &&& self.samples.len() <= u32::MAX
        &&& self.sized(self.samples)
    }

    pub open spec fn sized(self, samples: Seq<WireAggregateSample>) -> bool {
        forall|i: int| 0 <= i < samples.len() ==> (#[trigger] samples[i]).body.len() == self.sample_size
    }

    /// The first 20 bytes.
    pub open spec fn start(self) -> Seq<u8> {
        seq![2u8] + (seq![21u8] + (seq![self.flags] + (seq![schema_byte(self.schema)] + (le32(self.sample_size) + (
        le32(self.samples.len() as u32) + (le32(self.metric_id) + (seq![self.task_index] + (seq![self.stat_mask]
            + self.gap))))))))
    }

    /// The window and the lengths of the texts: 32 bytes.
    pub open spec fn window(self) -> Seq<u8> {
        le32(self.cycle_count_start) + (le32(self.cycle_count_end) + (self.spare + (le64(
            unsigned64(self.dc_time_start),
        ) + (le64(unsigned64(self.dc_time_end)) + (seq![encode_utf8(self.name).len() as u8] + (seq![encode_utf8(
            self.unit,
        ).len() as u8] + self.tail))))))
    }

    pub open spec fn trace(self) -> Seq<u8> {
        if flagged(self.flags, METRIC_FLAG_HAS_TRACE_CTX) { self.trace_id + self.span_id } else { Seq::empty() }
    }

    pub open spec fn bytes(self) -> Seq<u8> {
        self.start() + (self.window() + (self.trace() + (encode_utf8(self.name) + (encode_utf8(self.unit)
            + aggregate_samples_bytes(self.samples, self.flags)))))
    }

    /// What a sample's bytes stand for.
    pub open spec fn value(self, w: WireAggregateSample) -> MetricAggregateSampleView {
        aggregate_sample_at(w.body, 0, self.schema, self.sample_size as int, self.stat_mask)
    }

    /// The event that is read.
    pub open spec fn event(self) -> DiagEventView {
        DiagEventView::MetricAggregateBatch {
            metric_id: self.metric_id,
            task_index: self.task_index,
            flags: self.flags,
            body_schema: self.schema,
            sample_size: self.sample_size,
            stat_mask: self.stat_mask,
            cycle_count_start: self.cycle_count_start,
            cycle_count_end: self.cycle_count_end,
            dc_time_start: self.dc_time_start,
            dc_time_end: self.dc_time_end,
            name: self.name,
            unit: self.unit,
            trace_id: if flagged(self.flags, METRIC_FLAG_HAS_TRACE_CTX) { Some(self.trace_id) } else { None },
            span_id: if flagged(self.flags, METRIC_FLAG_HAS_TRACE_CTX) { Some(self.span_id) } else { None },
            samples: self.samples.map_values(|w: WireAggregateSample| self.value(w)),
            sample_cycle_offsets: if flagged(self.flags, METRIC_FLAG_HAS_SAMPLE_TS) {
                Some(self.samples.map_values(|w: WireAggregateSample| w.offset))
            } else {
                None
            },
        }
    }
}

proof fn lemma_encoded_at(s: Seq<u8>, p: int, t: Seq<char>)
    requires
        stands(s, p, encode_utf8(t)),
    ensures
        text_at(s, p, encode_utf8(t).len() as int) == Some(t),
{
    encode_utf8_valid_utf8(t);
    encode_utf8_decode_utf8(t);
}

/// A sample is read from its own bytes alone.
proof fn lemma_body_at(s: Seq<u8>, p: int, body: Seq<u8>, schema: MetricBodySchema, size: u32, mask: u8)
    requires
        stands(s, p, body),
        body.len() == size,
        crate::diagnostics_push::fits(schema, size, mask),
    ensures
        aggregate_sample_at(s, p, schema, size as int, mask) == aggregate_sample_at(body, 0, schema, size as int, mask),
{
    let n = size as int;
    assert(body.subrange(0, n) =~= body);
    assert(s.subrange(p, p + n) == body);
    assert(s.subrange(p, p + n)[0] == s[p]);
    if schema == MetricBodySchema::Numeric {
        crate::wire::lemma_window(s, p, p + n, 0);
    }
    if schema == MetricBodySchema::NumericAggregated {
        let here = Seq::new(bit_count(mask) as nat, |k: int| Lreal(u64_at(s, p + 8 * k)));
        let alone = Seq::new(bit_count(mask) as nat, |k: int| Lreal(u64_at(body, 0 + 8 * k)));
        assert forall|k: int| 0 <= k < bit_count(mask) implies #[trigger] here[k] == alone[k] by {
            crate::wire::lemma_window(s, p, p + n, 8 * k);
        }
        assert(here =~= alone);
    }
}

/// The number of bytes from one sample to the next.
spec fn stride(b: WireAggregate) -> int {
    lead_size(b.flags) + b.sample_size
}

proof fn lemma_aggregate_samples_at(s: Seq<u8>, p: int, b: WireAggregate, all: Seq<WireAggregateSample>, i: int)
    requires
        stands(s, p, aggregate_samples_bytes(all, b.flags)),
        b.sized(all),
        crate::diagnostics_push::fits(b.schema, b.sample_size, b.stat_mask),
        0 <= i < all.len(),
    ensures
        aggregate_sample_at(
            s,
            p + i * stride(b) + lead_size(b.flags),
            b.schema,
            b.sample_size as int,
            b.stat_mask,
        ) == b.value(all[i]),
        flagged(b.flags, METRIC_FLAG_HAS_SAMPLE_TS) ==> u16_at(s, p + i * stride(b)) == all[i].offset,
    decreases all.len(),
{
    let first = all[0];
    let rest = all.skip(1);
    let lead = if flagged(b.flags, METRIC_FLAG_HAS_SAMPLE_TS) { le16(first.offset) } else { Seq::empty() };
    assert(first.bytes(b.flags).len() == stride(b));
    lemma_stands_split(s, p, first.bytes(b.flags), aggregate_samples_bytes(rest, b.flags));
    lemma_stands_split(s, p, lead, first.body);
    if i == 0 {
        assert(i * stride(b) == 0);
        lemma_body_at(s, p + lead_size(b.flags), first.body, b.schema, b.sample_size, b.stat_mask);
        if flagged(b.flags, METRIC_FLAG_HAS_SAMPLE_TS) {
            lemma_word_at(s, p, first.offset);
        }
    } else {
        assert forall|j: int| 0 <= j < rest.len() implies (#[trigger] rest[j]).body.len() == b.sample_size by {
            assert(rest[j] == all[j + 1]);
        }
        let width = stride(b);
        lemma_aggregate_samples_at(s, p + width, b, rest, i - 1);
        assert(width + (i - 1) * width == i * width) by (nonlinear_arith);
        assert(rest[i - 1] == all[i]);
    }
}

proof fn lemma_aggregate_samples_len(b: WireAggregate, all: Seq<WireAggregateSample>)
    requires
        b.sized(all),
    ensures
        aggregate_samples_bytes(all, b.flags).len() == all.len() * stride(b),
    decreases all.len(),
{
    if all.len() > 0 {
        let rest = all.skip(1);
        assert forall|j: int| 0 <= j < rest.len() implies (#[trigger] rest[j]).body.len() == b.sample_size by {
            assert(rest[j] == all[j + 1]);
        }
        lemma_aggregate_samples_len(b, rest);
        let n = all.len() as int;
        let width = stride(b);
        assert(all[0].bytes(b.flags).len() == width);
        assert(width + (n - 1) * width == n * width) by (nonlinear_arith);
    } else {
        assert(0 * stride(b) == 0);
    }
}

proof fn lemma_aggregate_start_at(s: Seq<u8>, b: WireAggregate)
    requires
        stands(s, 0, b.start()),
        b.writable(),
    ensures
        s[0] == 2,
        s[1] == 21,
        s[2] == b.flags,
        s[3] == schema_byte(b.schema),
        u32_at(s, 4) == b.sample_size,
        u32_at(s, 8) == b.samples.len(),
        u32_at(s, 12) == b.metric_id,
        s[16] == b.task_index,
        s[17] == b.stat_mask,
{
    let schema = seq![schema_byte(b.schema)];
    let n = le32(b.samples.len() as u32);
    let c = seq![b.task_index] + (seq![b.stat_mask] + b.gap);
    let d = le32(b.sample_size) + (n + (le32(b.metric_id) + c));
    lemma_stands_split(s, 0, seq![2u8], seq![21u8] + (seq![b.flags] + (schema + d)));
    lemma_stands_split(s, 1, seq![21u8], seq![b.flags] + (schema + d));
    lemma_stands_split(s, 2, seq![b.flags], schema + d);
    lemma_stands_split(s, 3, schema, d);
    lemma_stands_split(s, 4, le32(b.sample_size), n + (le32(b.metric_id) + c));
    lemma_stands_split(s, 8, n, le32(b.metric_id) + c);
    lemma_stands_split(s, 12, le32(b.metric_id), c);
    lemma_stands_split(s, 16, seq![b.task_index], seq![b.stat_mask] + b.gap);
    lemma_stands_split(s, 17, seq![b.stat_mask], b.gap);
    lemma_byte_read(s, 0, 2u8);
    lemma_byte_read(s, 1, 21u8);
    lemma_byte_read(s, 2, b.flags);
    lemma_byte_read(s, 3, schema_byte(b.schema));
    lemma_dword_read(s, 4, b.sample_size);
    lemma_dword_read(s, 8, b.samples.len() as u32);
    lemma_dword_read(s, 12, b.metric_id);
    lemma_byte_read(s, 16, b.task_index);
    lemma_byte_read(s, 17, b.stat_mask);
}

proof fn lemma_aggregate_window_at(s: Seq<u8>, b: WireAggregate)
    requires
        stands(s, 20, b.window()),
        b.writable(),
    ensures
        u32_at(s, 20) == b.cycle_count_start,
        u32_at(s, 24) == b.cycle_count_end,
        i64_at(s, 32) == b.dc_time_start,
        i64_at(s, 40) == b.dc_time_end,
        s[48] == encode_utf8(b.name).len(),
        s[49] == encode_utf8(b.unit).len(),
{
    let start = le64(unsigned64(b.dc_time_start));
    let end = le64(unsigned64(b.dc_time_end));
    let name = seq![encode_utf8(b.name).len() as u8];
    let unit = seq![encode_utf8(b.unit).len() as u8];
    let d = name + (unit + b.tail);
    lemma_stands_split(
        s,
        20,
        le32(b.cycle_count_start),
        le32(b.cycle_count_end) + (b.spare + (start + (end + d))),
    );
    lemma_stands_split(s, 24, le32(b.cycle_count_end), b.spare + (start + (end + d)));
    lemma_stands_split(s, 28, b.spare, start + (end + d));
    lemma_stands_split(s, 32, start, end + d);
    lemma_stands_split(s, 40, end, d);
    lemma_stands_split(s, 48, name, unit + b.tail);
    lemma_stands_split(s, 49, unit, b.tail);
    lemma_dword_read(s, 20, b.cycle_count_start);
    lemma_dword_read(s, 24, b.cycle_count_end);
    lemma_signed_at(s, 32, b.dc_time_start);
    lemma_signed_at(s, 40, b.dc_time_end);
    lemma_byte_read(s, 48, encode_utf8(b.name).len() as u8);
    lemma_byte_read(s, 49, encode_utf8(b.unit).len() as u8);
}

/// The parts behind the header of an aggregate batch.
proof fn lemma_aggregate_parts(s: Seq<u8>, b: WireAggregate)
    requires
        stands(s, 0, b.bytes()),
        b.writable(),
    ensures
        ({
            let at_name = 52 + trace_size(b.flags);
            let at_unit = at_name + encode_utf8(b.name).len();
            let at_body = at_unit + encode_utf8(b.unit).len();
            &&& stands(s, 0, b.start())
            &&& stands(s, 20, b.window())
            &&& flagged(b.flags, METRIC_FLAG_HAS_TRACE_CTX) ==> s.subrange(52, 68) == b.trace_id && s.subrange(68, 76)
                == b.span_id
            &&& stands(s, at_name, encode_utf8(b.name))
            &&& stands(s, at_unit, encode_utf8(b.unit))
            &&& stands(s, at_body, aggregate_samples_bytes(b.samples, b.flags))
        }),
{
    let name = encode_utf8(b.name);
    let unit = encode_utf8(b.unit);
    let body = aggregate_samples_bytes(b.samples, b.flags);
    let texts = name + (unit + body);
    let at_name = 52 + trace_size(b.flags);
    assert(b.start().len() == 20);
    assert(b.window().len() == 32);
    assert(b.trace().len() == trace_size(b.flags));
    lemma_stands_split(s, 0, b.start(), b.window() + (b.trace() + texts));
    lemma_stands_split(s, 20, b.window(), b.trace() + texts);
    lemma_stands_split(s, 52, b.trace(), texts);
    lemma_stands_split(s, at_name, name, unit + body);
    lemma_stands_split(s, at_name + name.len(), unit, body);
    if flagged(b.flags, METRIC_FLAG_HAS_TRACE_CTX) {
        lemma_stands_split(s, 52, b.trace_id, b.span_id);
    }
}

/// An aggregate batch is read back from its bytes, also where more follows them: all its
/// figures, its texts, its trace if it has one, and every sample in order.
pub proof fn law_aggregate_batch_reads_back(b: WireAggregate, after: Seq<u8>)
    requires
        b.writable(),
    ensures
        aggregate_of(b.bytes() + after) == Some(b.event()),
{
    let s = b.bytes() + after;
    let at_name = 52 + trace_size(b.flags);
    let at_unit = at_name + encode_utf8(b.name).len();
    let at_body = at_unit + encode_utf8(b.unit).len();
    let lead = lead_size(b.flags);
    let size = b.sample_size as int;
    assert(s.subrange(0, b.bytes().len() as int) =~= b.bytes());
    lemma_aggregate_parts(s, b);
    lemma_aggregate_start_at(s, b);
    lemma_aggregate_window_at(s, b);
    lemma_encoded_at(s, at_name, b.name);
    lemma_encoded_at(s, at_unit, b.unit);
    lemma_aggregate_samples_len(b, b.samples);
    let read = Seq::new(
        u32_at(s, 8) as nat,
        |i: int| aggregate_sample_at(s, at_body + i * (lead + size) + lead, b.schema, size, b.stat_mask),
    );
    let offsets = Seq::new(u32_at(s, 8) as nat, |i: int| u16_at(s, at_body + i * (lead + size)));
    assert forall|i: int| 0 <= i < b.samples.len() implies #[trigger] read[i] == b.value(b.samples[i]) && (flagged(
        b.flags,
        METRIC_FLAG_HAS_SAMPLE_TS,
    ) ==> offsets[i] == b.samples[i].offset) by {
        lemma_aggregate_samples_at(s, at_body, b, b.samples, i);
    }
    assert(read =~= b.samples.map_values(|w: WireAggregateSample| b.value(w)));
    if flagged(b.flags, METRIC_FLAG_HAS_SAMPLE_TS) {
        assert forall|i: int| 0 <= i < b.samples.len() implies #[trigger] offsets[i] == b.samples[i].offset by {
            assert(read[i] == b.value(b.samples[i]));
        }
        assert(offsets =~= b.samples.map_values(|w: WireAggregateSample| w.offset));
    }
}

// Metric batches.

/// The attributes of a descriptor, one behind the other.
pub open spec fn pairs_bytes(all: Seq<(Seq<char>, Seq<char>)>) -> Seq<u8>
    decreases all.len(),
{
    if all.len() == 0 {
        Seq::empty()
    } else {
        pair_bytes(all[0]) + pairs_bytes(all.skip(1))
    }
}

pub open spec fn pair_bytes(pair: (Seq<char>, Seq<char>)) -> Seq<u8> {
    let k = encode_utf8(pair.0);
    let v = encode_utf8(pair.1);
    seq![k.len() as u8] + (seq![v.len() as u8] + (k + v))
}

pub open spec fn pairs_fit(all: Seq<(Seq<char>, Seq<char>)>) -> bool {
    forall|i: int|
        0 <= i < all.len() ==> crate::encoding::fits((#[trigger] all[i]).0) && crate::encoding::fits(all[i].1)
}

pub open spec fn bounds_bytes(all: Seq<Real>) -> Seq<u8>
    decreases all.len(),
{
    if all.len() == 0 {
        Seq::empty()
    } else {
        le32(all[0].0) + bounds_bytes(all.skip(1))
    }
}

/// A descriptor and the bytes of it that are not read.
pub struct WireDescriptor {
    pub descriptor: MetricDescriptorView,
    pub spare: Seq<u8>,
}

impl WireDescriptor {
    /// The bounds; none where the metric is no histogram.
    pub open spec fn bounds(self) -> Seq<Real> {
        match self.descriptor.histogram_bounds {
            Some(bounds) => bounds,
            None => Seq::empty(),
        }
    }

    pub open spec fn writable(self) -> bool {
        let d = self.descriptor;
        &&& self.spare.len() == 3
        &&& crate::encoding::fits(d.name)
        &&& crate::encoding::fits(d.unit)
        &&& crate::encoding::fits(d.description)
        &&& d.attributes.len() <= 8
        &&& pairs_fit(d.attributes)
        &&& d.histogram_bounds matches Some(bounds) ==> d.kind == 2 && 1 <= bounds.len() <= 255
    }

    /// The first 12 bytes.
    pub open spec fn head(self) -> Seq<u8> {
        let d = self.descriptor;
        le16(d.metric_id) + (seq![d.kind] + (seq![d.flags] + (seq![encode_utf8(d.name).len() as u8] + (
        seq![encode_utf8(d.unit).len() as u8] + (seq![encode_utf8(d.description).len() as u8] + (
        seq![d.attributes.len() as u8] + (seq![self.bounds().len() as u8] + self.spare)))))))
    }

    pub open spec fn bytes(self) -> Seq<u8> {
        let d = self.descriptor;
        self.head() + (encode_utf8(d.name) + (encode_utf8(d.unit) + (encode_utf8(d.description) + (pairs_bytes(
            d.attributes,
        ) + bounds_bytes(self.bounds())))))
    }
}

proof fn lemma_pairs_at(
    s: Seq<u8>,
    p: int,
    all: Seq<(Seq<char>, Seq<char>)>,
    found: Seq<(Seq<char>, Seq<char>)>,
)
    requires
        stands(s, p, pairs_bytes(all)),
        pairs_fit(all),
    ensures
        pairs_at(s, p, all.len(), found) == Some((found + all, p + pairs_bytes(all).len() as int)),
    decreases all.len(),
{
    if all.len() == 0 {
        assert(found + all =~= found);
    } else {
        let k = encode_utf8(all[0].0);
        let v = encode_utf8(all[0].1);
        let rest = all.skip(1);
        assert(pairs_fit(rest)) by {
            assert forall|i: int| 0 <= i < rest.len() implies crate::encoding::fits((#[trigger] rest[i]).0)
                && crate::encoding::fits(rest[i].1) by {
                assert(rest[i] == all[i + 1]);
            }
        }
        lemma_stands_split(s, p, pair_bytes(all[0]), pairs_bytes(rest));
        lemma_stands_split(s, p, seq![k.len() as u8], seq![v.len() as u8] + (k + v));
        lemma_stands_split(s, p + 1, seq![v.len() as u8], k + v);
        lemma_stands_split(s, p + 2, k, v);
        lemma_byte_read(s, p, k.len() as u8);
        lemma_byte_read(s, p + 1, v.len() as u8);
        lemma_encoded_at(s, p + 2, all[0].0);
        lemma_encoded_at(s, p + 2 + k.len(), all[0].1);
        lemma_pairs_at(s, p + 2 + k.len() + v.len(), rest, found.push(all[0]));
        assert(found.push(all[0]) + rest =~= found + all);
    }
}

proof fn lemma_bounds_at(s: Seq<u8>, p: int, all: Seq<Real>)
    requires
        stands(s, p, bounds_bytes(all)),
    ensures
        bounds_bytes(all).len() == 4 * all.len(),
        bounds_at(s, p, all.len()) == all,
    decreases all.len(),
{
    if all.len() > 0 {
        let rest = all.skip(1);
        lemma_stands_split(s, p, le32(all[0].0), bounds_bytes(rest));
        lemma_dword_read(s, p, all[0].0);
        lemma_bounds_at(s, p + 4, rest);
        assert forall|i: int| 0 <= i < all.len() implies #[trigger] bounds_at(s, p, all.len())[i] == all[i] by {
            if i > 0 {
                assert(bounds_at(s, p + 4, rest.len())[i - 1] == rest[i - 1]);
            }
        }
    }
    assert(bounds_at(s, p, all.len()) =~= all);
}

proof fn lemma_descriptor_head_at(s: Seq<u8>, p: int, w: WireDescriptor)
    requires
        stands(s, p, w.head()),
        w.writable(),
    ensures
        ({
            let d = w.descriptor;
            &&& u16_at(s, p) == d.metric_id
            &&& s[p + 2] == d.kind
            &&& s[p + 3] == d.flags
            &&& s[p + 4] == encode_utf8(d.name).len()
            &&& s[p + 5] == encode_utf8(d.unit).len()
            &&& s[p + 6] == encode_utf8(d.description).len()
            &&& s[p + 7] == d.attributes.len()
            &&& s[p + 8] == w.bounds().len()
        }),
{
    let d = w.descriptor;
    let name = seq![encode_utf8(d.name).len() as u8];
    let unit = seq![encode_utf8(d.unit).len() as u8];
    let text = seq![encode_utf8(d.description).len() as u8];
    let pairs = seq![d.attributes.len() as u8];
    let bounds = seq![w.bounds().len() as u8];
    let b = name + (unit + (text + (pairs + (bounds + w.spare))));
    lemma_stands_split(s, p, le16(d.metric_id), seq![d.kind] + (seq![d.flags] + b));
    lemma_stands_split(s, p + 2, seq![d.kind], seq![d.flags] + b);
    lemma_stands_split(s, p + 3, seq![d.flags], b);
    lemma_stands_split(s, p + 4, name, unit + (text + (pairs + (bounds + w.spare))));
    lemma_stands_split(s, p + 5, unit, text + (pairs + (bounds + w.spare)));
    lemma_stands_split(s, p + 6, text, pairs + (bounds + w.spare));
    lemma_stands_split(s, p + 7, pairs, bounds + w.spare);
    lemma_stands_split(s, p + 8, bounds, w.spare);
    lemma_word_at(s, p, d.metric_id);
    lemma_byte_read(s, p + 2, d.kind);
    lemma_byte_read(s, p + 3, d.flags);
    lemma_byte_read(s, p + 4, name[0]);
    lemma_byte_read(s, p + 5, unit[0]);
    lemma_byte_read(s, p + 6, text[0]);
    lemma_byte_read(s, p + 7, pairs[0]);
    lemma_byte_read(s, p + 8, bounds[0]);
}

proof fn lemma_descriptor_at(s: Seq<u8>, p: int, w: WireDescriptor)
    requires
        stands(s, p, w.bytes()),
        w.writable(),
    ensures
        descriptor_at(s, p) == Some((w.descriptor, p + w.bytes().len() as int)),
{
    let d = w.descriptor;
    let name = encode_utf8(d.name);
    let unit = encode_utf8(d.unit);
    let text = encode_utf8(d.description);
    let pairs = pairs_bytes(d.attributes);
    let bounds = bounds_bytes(w.bounds());
    let at_unit = p + 12 + name.len();
    let at_text = at_unit + unit.len();
    let at_pairs = at_text + text.len();
    let end = at_pairs + pairs.len();
    assert(w.head().len() == 12);
    lemma_stands_split(s, p, w.head(), name + (unit + (text + (pairs + bounds))));
    lemma_stands_split(s, p + 12, name, unit + (text + (pairs + bounds)));
    lemma_stands_split(s, at_unit, unit, text + (pairs + bounds));
    lemma_stands_split(s, at_text, text, pairs + bounds);
    lemma_stands_split(s, at_pairs, pairs, bounds);
    lemma_descriptor_head_at(s, p, w);
    lemma_encoded_at(s, p + 12, d.name);
    lemma_encoded_at(s, at_unit, d.unit);
    lemma_encoded_at(s, at_text, d.description);
    lemma_pairs_at(s, at_pairs, d.attributes, Seq::empty());
    assert(Seq::<(Seq<char>, Seq<char>)>::empty() + d.attributes =~= d.attributes);
    lemma_bounds_at(s, end, w.bounds());
}

pub open spec fn descriptors_bytes(all: Seq<WireDescriptor>) -> Seq<u8>
    decreases all.len(),
{
    if all.len() == 0 {
        Seq::empty()
    } else {
        all[0].bytes() + descriptors_bytes(all.skip(1))
    }
}

pub open spec fn descriptors_read(all: Seq<WireDescriptor>) -> Seq<MetricDescriptorView> {
    all.map_values(|w: WireDescriptor| w.descriptor)
}

proof fn lemma_descriptors_at(s: Seq<u8>, p: int, all: Seq<WireDescriptor>, found: Seq<MetricDescriptorView>)
    requires
        stands(s, p, descriptors_bytes(all)),
        forall|i: int| 0 <= i < all.len() ==> (#[trigger] all[i]).writable(),
    ensures
        descriptors_at(s, p, all.len(), found) == Some(
            (found + descriptors_read(all), p + descriptors_bytes(all).len() as int),
        ),
    decreases all.len(),
{
    if all.len() == 0 {
        assert(found + descriptors_read(all) =~= found);
    } else {
        let rest = all.skip(1);
        assert forall|i: int| 0 <= i < rest.len() implies (#[trigger] rest[i]).writable() by {
            assert(rest[i] == all[i + 1]);
        }
        lemma_stands_split(s, p, all[0].bytes(), descriptors_bytes(rest));
        lemma_descriptor_at(s, p, all[0]);
        lemma_descriptors_at(s, p + all[0].bytes().len() as int, rest, found.push(all[0].descriptor));
        assert(found.push(all[0].descriptor) + descriptors_read(rest) =~= found + descriptors_read(all));
    }
}

/// A value of a metric and the byte of it that is not read.
pub struct WireMetricSample {
    pub sample: MetricSample,
    pub spare: u8,
}

impl WireMetricSample {
    pub open spec fn bytes(self) -> Seq<u8> {
        le16(self.sample.metric_id) + (seq![self.sample.flags] + (seq![self.spare] + (le64(
            unsigned64(self.sample.dc_time),
        ) + le32(self.sample.value.0))))
    }
}

pub open spec fn metric_samples_bytes(all: Seq<WireMetricSample>) -> Seq<u8>
    decreases all.len(),
{
    if all.len() == 0 {
        Seq::empty()
    } else {
        all[0].bytes() + metric_samples_bytes(all.skip(1))
    }
}

proof fn lemma_metric_sample_at(s: Seq<u8>, p: int, w: WireMetricSample)
    requires
        stands(s, p, w.bytes()),
    ensures
        metric_sample_at(s, p) == w.sample,
        w.bytes().len() == 16,
{
    let x = w.sample;
    let time = le64(unsigned64(x.dc_time));
    lemma_stands_split(s, p, le16(x.metric_id), seq![x.flags] + (seq![w.spare] + (time + le32(x.value.0))));
    lemma_stands_split(s, p + 2, seq![x.flags], seq![w.spare] + (time + le32(x.value.0)));
    lemma_stands_split(s, p + 3, seq![w.spare], time + le32(x.value.0));
    lemma_stands_split(s, p + 4, time, le32(x.value.0));
    lemma_word_at(s, p, x.metric_id);
    lemma_byte_read(s, p + 2, x.flags);
    lemma_signed_at(s, p + 4, x.dc_time);
    lemma_dword_read(s, p + 12, x.value.0);
}

proof fn lemma_metric_samples_at(s: Seq<u8>, p: int, all: Seq<WireMetricSample>, i: int)
    requires
        stands(s, p, metric_samples_bytes(all)),
        0 <= i < all.len(),
    ensures
        metric_sample_at(s, p + 16 * i) == all[i].sample,
    decreases all.len(),
{
    lemma_stands_split(s, p, all[0].bytes(), metric_samples_bytes(all.skip(1)));
    lemma_metric_sample_at(s, p, all[0]);
    if i > 0 {
        lemma_metric_samples_at(s, p + 16, all.skip(1), i - 1);
    }
}

proof fn lemma_metric_samples_len(all: Seq<WireMetricSample>)
    ensures
        metric_samples_bytes(all).len() == 16 * all.len(),
    decreases all.len(),
{
    if all.len() > 0 {
        lemma_metric_samples_len(all.skip(1));
    }
}

/// A metric batch; the bytes that are not read may hold anything.
pub struct WireMetrics {
    pub reserved: Seq<u8>,
    pub window_ms: u16,
    pub gap: Seq<u8>,
    pub cycle_count: u32,
    pub dc_time_start: i64,
    pub dc_time_end: i64,
    pub descriptors: Seq<WireDescriptor>,
    pub samples: Seq<WireMetricSample>,
}

impl WireMetrics {
    pub open spec fn writable(self) -> bool {
        &&& self.reserved.len() == 2
        &&& self.gap.len() == 2
        &&& self.descriptors.len() <= 0xFFFF
        &&& self.samples.len() <= 0xFFFF
        &&& forall|i: int| 0 <= i < self.descriptors.len() ==> (#[trigger] self.descriptors[i]).writable()
    }

    /// The first 32 bytes.
    pub open spec fn head(self) -> Seq<u8> {
        seq![2u8] + (seq![20u8] + (self.reserved + (le16(self.descriptors.len() as u16) + (le16(
            self.samples.len() as u16,
        ) + (le16(self.window_ms) + (self.gap + (le32(self.cycle_count) + (le64(unsigned64(self.dc_time_start)) + le64(
            unsigned64(self.dc_time_end),
        )))))))))
    }

    pub open spec fn bytes(self) -> Seq<u8> {
        self.head() + (descriptors_bytes(self.descriptors) + metric_samples_bytes(self.samples))
    }

    /// The event that is read.
    pub open spec fn event(self) -> DiagEventView {
        DiagEventView::MetricBatch {
            window_ms: self.window_ms,
            cycle_count: self.cycle_count,
            dc_time_start: self.dc_time_start,
            dc_time_end: self.dc_time_end,
            descriptors: descriptors_read(self.descriptors),
            samples: self.samples.map_values(|w: WireMetricSample| w.sample),
        }
    }
}

proof fn lemma_metrics_head_at(s: Seq<u8>, b: WireMetrics)
    requires
        stands(s, 0, b.head()),
        b.writable(),
    ensures
        s[0] == 2,
        s[1] == 20,
        u16_at(s, 4) == b.descriptors.len(),
        u16_at(s, 6) == b.samples.len(),
        u16_at(s, 8) == b.window_ms,
        u32_at(s, 12) == b.cycle_count,
        i64_at(s, 16) == b.dc_time_start,
        i64_at(s, 24) == b.dc_time_end,
{
    let n = le16(b.descriptors.len() as u16);
    let m = le16(b.samples.len() as u16);
    let start = le64(unsigned64(b.dc_time_start));
    let end = le64(unsigned64(b.dc_time_end));
    let d = b.gap + (le32(b.cycle_count) + (start + end));
    lemma_stands_split(s, 0, seq![2u8], seq![20u8] + (b.reserved + (n + (m + (le16(b.window_ms) + d)))));
    lemma_stands_split(s, 1, seq![20u8], b.reserved + (n + (m + (le16(b.window_ms) + d))));
    lemma_stands_split(s, 2, b.reserved, n + (m + (le16(b.window_ms) + d)));
    lemma_stands_split(s, 4, n, m + (le16(b.window_ms) + d));
    lemma_stands_split(s, 6, m, le16(b.window_ms) + d);
    lemma_stands_split(s, 8, le16(b.window_ms), d);
    lemma_stands_split(s, 10, b.gap, le32(b.cycle_count) + (start + end));
    lemma_stands_split(s, 12, le32(b.cycle_count), start + end);
    lemma_stands_split(s, 16, start, end);
    lemma_byte_read(s, 0, 2u8);
    lemma_byte_read(s, 1, 20u8);
    lemma_word_at(s, 4, b.descriptors.len() as u16);
    lemma_word_at(s, 6, b.samples.len() as u16);
    lemma_word_at(s, 8, b.window_ms);
    lemma_dword_read(s, 12, b.cycle_count);
    lemma_signed_at(s, 16, b.dc_time_start);
    lemma_signed_at(s, 24, b.dc_time_end);
}

/// A metric batch is read back from its bytes: its window, every descriptor with its texts,
/// attributes and bounds, and every value in order. With anything behind them the bytes are no
/// metric batch.
pub proof fn law_metric_batch_reads_back(b: WireMetrics, after: Seq<u8>)
    requires
        b.writable(),
    ensures
        metric_batch_of(b.bytes()) == Some(b.event()),
        after.len() > 0 ==> metric_batch_of(b.bytes() + after) is None,
{
    let own = b.bytes();
    lemma_take_own(own, Seq::empty());
    lemma_take_own(own, after);
    assert(own + Seq::<u8>::empty() =~= own);
    lemma_metrics_at(own, b);
    lemma_metrics_at(own + after, b);
}

proof fn lemma_take_own(own: Seq<u8>, after: Seq<u8>)
    ensures
        (own + after).take(own.len() as int) == own,
{
    assert((own + after).take(own.len() as int) =~= own);
}

proof fn lemma_metrics_at(s: Seq<u8>, b: WireMetrics)
    requires
        s.len() >= b.bytes().len(),
        s.take(b.bytes().len() as int) == b.bytes(),
        b.writable(),
    ensures
        metric_batch_of(s) == (if s.len() == b.bytes().len() { Some(b.event()) } else { None }),
{
    let at = 32 + descriptors_bytes(b.descriptors).len() as int;
    assert(s.subrange(0, b.bytes().len() as int) =~= s.take(b.bytes().len() as int));
    assert(b.head().len() == 32);
    lemma_stands_split(s, 0, b.head(), descriptors_bytes(b.descriptors) + metric_samples_bytes(b.samples));
    lemma_stands_split(s, 32, descriptors_bytes(b.descriptors), metric_samples_bytes(b.samples));
    lemma_metrics_head_at(s, b);
    lemma_descriptors_at(s, 32, b.descriptors, Seq::empty());
    assert(Seq::<MetricDescriptorView>::empty() + descriptors_read(b.descriptors) =~= descriptors_read(b.descriptors));
    lemma_metric_samples_len(b.samples);
    let read = Seq::new(u16_at(s, 6) as nat, |i: int| metric_sample_at(s, at + 16 * i));
    assert forall|i: int| 0 <= i < b.samples.len() implies #[trigger] read[i] == b.samples[i].sample by {
        lemma_metric_samples_at(s, at, b.samples, i);
    }
    assert(read =~= b.samples.map_values(|w: WireMetricSample| w.sample));
}

// Frames that are cut short or go on.

proof fn lemma_text_kept(s: Seq<u8>, t: Seq<u8>, pos: int, n: int)
    requires
        within(s, t, 0),
        0 <= pos,
        0 <= n,
        text_at(s, pos, n) is Some,
    ensures
        text_at(t, pos, n) == text_at(s, pos, n),
{
    assert(s.subrange(pos, pos + n) =~= t.subrange(pos, pos + n));
}

proof fn lemma_pairs_kept(s: Seq<u8>, t: Seq<u8>, pos: int, n: nat, found: Seq<(Seq<char>, Seq<char>)>)
    requires
        within(s, t, 0),
        0 <= pos <= s.len(),
        pairs_at(s, pos, n, found) is Some,
    ensures
        pairs_at(t, pos, n, found) == pairs_at(s, pos, n, found),
        pairs_at(s, pos, n, found) matches Some((_, p)) ==> pos <= p <= s.len(),
    decreases n,
{
    if n > 0 {
        let k = s[pos] as int;
        let v = s[pos + 1] as int;
        assert(t[0 + pos] == s[pos] && t[0 + (pos + 1)] == s[pos + 1]);
        lemma_text_kept(s, t, pos + 2, k);
        lemma_text_kept(s, t, pos + 2 + k, v);
        let pair = (text_at(s, pos + 2, k)->Some_0, text_at(s, pos + 2 + k, v)->Some_0);
        lemma_pairs_kept(s, t, pos + 2 + k + v, (n - 1) as nat, found.push(pair));
    }
}

proof fn lemma_bounds_kept(s: Seq<u8>, t: Seq<u8>, pos: int, n: nat)
    requires
        within(s, t, 0),
        0 <= pos,
        pos + 4 * n <= s.len(),
    ensures
        bounds_at(t, pos, n) == bounds_at(s, pos, n),
{
    assert forall|i: int| 0 <= i < n implies bounds_at(t, pos, n)[i] == #[trigger] bounds_at(s, pos, n)[i] by {
        let p = pos + 4 * i;
        assert(s[p] == t[0 + p] && s[p + 1] == t[0 + (p + 1)] && s[p + 2] == t[0 + (p + 2)] && s[p + 3] == t[0 + (p
            + 3)]);
    }
    assert(bounds_at(t, pos, n) =~= bounds_at(s, pos, n));
}

proof fn lemma_descriptor_kept(s: Seq<u8>, t: Seq<u8>, pos: int)
    requires
        within(s, t, 0),
        0 <= pos <= s.len(),
        descriptor_at(s, pos) is Some,
    ensures
        descriptor_at(t, pos) == descriptor_at(s, pos),
        descriptor_at(s, pos) matches Some((_, p)) ==> pos <= p <= s.len(),
{
    assert forall|i: int| 0 <= i < 12 implies #[trigger] s[pos + i] == t[pos + i] by {
        assert(s[pos + i] == t[0 + (pos + i)]);
    }
    assert(s[pos + 0] == t[pos + 0] && s[pos + 1] == t[pos + 1] && s[pos + 2] == t[pos + 2] && s[pos + 3] == t[pos + 3]);
    assert(s[pos + 4] == t[pos + 4] && s[pos + 5] == t[pos + 5] && s[pos + 6] == t[pos + 6] && s[pos + 7] == t[pos + 7]);
    assert(s[pos + 8] == t[pos + 8]);
    let at_unit = pos + 12 + s[pos + 4];
    let at_text = at_unit + s[pos + 5];
    let at_pairs = at_text + s[pos + 6];
    lemma_text_kept(s, t, pos + 12, s[pos + 4] as int);
    lemma_text_kept(s, t, at_unit, s[pos + 5] as int);
    lemma_text_kept(s, t, at_text, s[pos + 6] as int);
    lemma_pairs_kept(s, t, at_pairs, s[pos + 7] as nat, Seq::empty());
    let end = pairs_at(s, at_pairs, s[pos + 7] as nat, Seq::empty())->Some_0.1;
    if s[pos + 2] == 2 && s[pos + 8] != 0 {
        lemma_bounds_kept(s, t, end, s[pos + 8] as nat);
    }
}

proof fn lemma_descriptors_kept(s: Seq<u8>, t: Seq<u8>, pos: int, n: nat, found: Seq<MetricDescriptorView>)
    requires
        within(s, t, 0),
        0 <= pos <= s.len(),
        descriptors_at(s, pos, n, found) is Some,
    ensures
        descriptors_at(t, pos, n, found) == descriptors_at(s, pos, n, found),
        descriptors_at(s, pos, n, found) matches Some((all, p)) ==> all.len() == found.len() + n && pos <= p <= s.len(),
    decreases n,
{
    if n > 0 {
        lemma_descriptor_kept(s, t, pos);
        let (d, p) = descriptor_at(s, pos)->Some_0;
        lemma_descriptors_kept(s, t, p, (n - 1) as nat, found.push(d));
    }
}

/// Of a frame and a longer one that starts with it, at most one is a metric batch.
proof fn lemma_one_length(s: Seq<u8>, t: Seq<u8>)
    requires
        within(s, t, 0),
        s.len() < t.len(),
        metric_batch_of(s) is Some,
    ensures
        metric_batch_of(t) is None,
{
    assert forall|i: int| 0 <= i < 8 implies #[trigger] s[i] == t[i] by {
        assert(s[i] == t[0 + i]);
    }
    lemma_descriptors_kept(s, t, 32, u16_at(s, 4) as nat, Seq::empty());
}

/// A metric batch has as many descriptors and samples as its header says, and its length is that
/// of its header, its descriptors and 16 bytes for each sample. No part of it from its start and
/// nothing that goes on behind it is a metric batch.
pub proof fn law_metric_batch_length(s: Seq<u8>, n: int, more: Seq<u8>)
    requires
        metric_batch_of(s) is Some,
        0 <= n < s.len(),
        more.len() > 0,
    ensures
        s[0] == 2 && s[1] == 20,
        metric_batch_of(s) matches Some(DiagEventView::MetricBatch { descriptors, samples, .. }) && {
            &&& descriptors.len() == u16_at(s, 4)
            &&& samples.len() == u16_at(s, 6)
            &&& descriptors_at(s, 32, u16_at(s, 4) as nat, Seq::empty()) matches Some((all, at)) && all == descriptors
                && s.len() == at + 16 * samples.len()
        },
        metric_batch_of(s.take(n)) is None,
        metric_batch_of(s + more) is None,
{
    assert(within(s, s, 0));
    lemma_descriptors_kept(s, s, 32, u16_at(s, 4) as nat, Seq::empty());
    assert(within(s, s + more, 0));
    lemma_one_length(s, s + more);
    if metric_batch_of(s.take(n)) is Some {
        assert(within(s.take(n), s, 0));
        lemma_one_length(s.take(n), s);
    }
}

} // verus!
