//! Diagnostic polls of the TwinCAT runtime: which requests are followed, and what their
//! responses say.
//!
//! A response does not carry the index group and offset of its request: the two are matched
//! by invoke id.
use vstd::prelude::*;

use crate::ams::{AmsHeader, AmsHeaderView, ADS_CMD_READ, ADS_CMD_WRITE, ADS_STATE_REQUEST};
use crate::models::{Lreal, Real};
use crate::wire::{get_u16, get_u32, u16_at, u32_at};

verus! {

/// The bit of the state flags that marks a response.
pub const ADS_STATE_RESPONSE_MASK: u16 = 0x0001;

/// Index group of the realtime diagnostics.
pub const IG_RT_SYSTEM: u32 = 0x0000_F200;

/// Index group of the usage and latency block (port 200).
pub const IG_RT_USAGE: u32 = 0x0000_0001;

/// Index offset of the exceed counter in `IG_RT_SYSTEM`.
pub const IO_EXCEED_COUNTER: u32 = 0x0000_0100;

/// Index offset of the task statistics in `IG_RT_SYSTEM`.
pub const IO_TASK_STATS: u32 = 0x0000_0000;

/// Index offset of the usage and latency block in `IG_RT_USAGE`.
pub const IO_RT_USAGE: u32 = 0x0000_000F;

/// Index group of pushed diagnostics.
pub const IG_PUSH_DIAG: u32 = 0x4D42_4301;

/// Index group of the push configuration.
pub const IG_PUSH_CONFIG: u32 = 0x4D42_4302;

/// Index offset of task batches in `IG_PUSH_DIAG`.
pub const IO_PUSH_BATCH: u32 = 0;

/// Index offset of metric batches in `IG_PUSH_DIAG`.
pub const IO_PUSH_METRIC_BATCH: u32 = 1;

/// Index offset of aggregate batches in `IG_PUSH_DIAG`.
pub const IO_PUSH_METRIC_AGG: u32 = 2;

pub const PUSH_WIRE_VERSION: u8 = 2;

pub const PUSH_BATCH_EVENT_TYPE: u8 = 10;

pub const PUSH_METRIC_EVENT_TYPE: u8 = 20;

pub const PUSH_METRIC_AGG_EVENT_TYPE: u8 = 21;

pub const PUSH_METRIC_AGG_HEADER_SIZE: usize = 52;

/// A trace id and a span id.
pub const PUSH_METRIC_AGG_TRACE_SIZE: usize = 24;

/// A trace context follows the header of the aggregate batch.
pub const METRIC_FLAG_HAS_TRACE_CTX: u8 = 1;

/// A sample was lost in the window.
pub const METRIC_FLAG_RING_OVERFLOWED: u8 = 2;

/// A cycle offset stands before each sample.
pub const METRIC_FLAG_HAS_SAMPLE_TS: u8 = 4;

/// The bytes of a cycle offset.
pub const METRIC_SAMPLE_TS_SIZE: usize = 2;

pub const METRIC_STAT_MIN: u8 = 1;

pub const METRIC_STAT_MAX: u8 = 2;

pub const METRIC_STAT_MEAN: u8 = 4;

pub const METRIC_STAT_SUM: u8 = 8;

pub const METRIC_STAT_COUNT: u8 = 16;

pub const METRIC_STAT_STDDEV: u8 = 32;

pub const PUSH_BATCH_HEADER_SIZE: usize = 80;

pub const PUSH_SAMPLE_SIZE: usize = 24;

/// The most samples of a task batch.
pub const PUSH_BATCH_MAX_SAMPLES: usize = 1024;

pub const SAMPLE_FLAG_CYCLE_EXCEED: u8 = 1;

pub const SAMPLE_FLAG_RT_VIOLATION: u8 = 2;

pub const SAMPLE_FLAG_FIRST_CYCLE: u8 = 4;

pub const SAMPLE_FLAG_OVERFLOW: u8 = 8;

/// The AMS port of the realtime subsystem.
pub const AMSPORT_R0_REALTIME: u16 = 200;

pub const TASK_STATS_LEN: usize = 16;

pub const EXCEED_COUNTER_LEN: usize = 4;

pub const RT_USAGE_LEN: usize = 24;

/// A type marker seen for PLC tasks; it differs between runtimes.
pub const TASK_MARKER_PLC: u16 = 0x0071;

/// A type marker seen for an idle task; it differs between runtimes.
pub const TASK_MARKER_IDLE: u16 = 0x000B;

/// The statistics in the order of their bits, each with the suffix of its metric's name.
pub fn metric_stat_order() -> (r: [(u8, &'static str); 6])
    ensures
        r@ == seq![
            (METRIC_STAT_MIN, "min"),
            (METRIC_STAT_MAX, "max"),
            (METRIC_STAT_MEAN, "mean"),
            (METRIC_STAT_SUM, "sum"),
            (METRIC_STAT_COUNT, "count"),
            (METRIC_STAT_STDDEV, "stddev"),
        ],
{
    let r = [
        (METRIC_STAT_MIN, "min"),
        (METRIC_STAT_MAX, "max"),
        (METRIC_STAT_MEAN, "mean"),
        (METRIC_STAT_SUM, "sum"),
        (METRIC_STAT_COUNT, "count"),
        (METRIC_STAT_STDDEV, "stddev"),
    ];
    assert(r@ =~= seq![
        (METRIC_STAT_MIN, "min"),
        (METRIC_STAT_MAX, "max"),
        (METRIC_STAT_MEAN, "mean"),
        (METRIC_STAT_SUM, "sum"),
        (METRIC_STAT_COUNT, "count"),
        (METRIC_STAT_STDDEV, "stddev"),
    ]);
    r
}

/// What is kept of a request until its response comes.
#[derive(Debug, Clone, Copy, PartialEq, Eq, Structural)]
pub struct PendingRequest {
    pub command_id: u16,
    pub index_group: u32,
    pub index_offset: u32,
    /// The bytes to read, or the bytes written.
    pub size: u32,
    pub target_port: u16,
}

impl View for PendingRequest {
    type V = PendingRequest;

    open spec fn view(&self) -> PendingRequest {
        *self
    }
}

/// One cycle of a task.
#[derive(Debug, Clone, Copy, PartialEq, Eq, Structural)]
pub struct DiagSample {
    pub cycle_count: u32,
    pub exec_time_us: u32,
    /// FILETIME ticks.
    pub dc_time: i64,
    pub flags: u8,
}

/// One value of a metric.
#[derive(Debug, Clone, Copy, PartialEq, Eq, Structural)]
pub struct MetricSample {
    pub metric_id: u16,
    pub flags: u8,
    /// FILETIME ticks.
    pub dc_time: i64,
    pub value: Real,
}

/// What a metric is.
#[derive(Debug, PartialEq, Eq)]
pub struct MetricDescriptor {
    pub metric_id: u16,
    /// 0 gauge, 1 sum, 2 histogram.
    pub kind: u8,
    pub flags: u8,
    pub name: String,
    pub unit: String,
    pub description: String,
    pub attributes: Vec<(String, String)>,
    pub histogram_bounds: Option<Vec<Real>>,
}

pub struct MetricDescriptorView {
    pub metric_id: u16,
    pub kind: u8,
    pub flags: u8,
    pub name: Seq<char>,
    pub unit: Seq<char>,
    pub description: Seq<char>,
    pub attributes: Seq<(Seq<char>, Seq<char>)>,
    pub histogram_bounds: Option<Seq<Real>>,
}

impl View for MetricDescriptor {
    type V = MetricDescriptorView;

    open spec fn view(&self) -> MetricDescriptorView {
        MetricDescriptorView {
            metric_id: self.metric_id,
            kind: self.kind,
            flags: self.flags,
            name: self.name@,
            unit: self.unit@,
            description: self.description@,
            attributes: self.attributes@.map_values(|a: (String, String)| (a.0@, a.1@)),
            histogram_bounds: match self.histogram_bounds {
                Some(b) => Some(b@),
                None => None,
            },
        }
    }
}

/// How the samples of an aggregate batch are written.
#[derive(Debug, Clone, Copy, PartialEq, Eq, Structural)]
pub enum MetricBodySchema {
    /// One byte each.
    Bool,
    /// Eight bytes each.
    Numeric,
    /// Raw bytes.
    Discrete,
    /// UTF-8, filled up with zeros.
    String,
    /// UTF-16, filled up with zeros.
    Wstring,
    /// Eight bytes for each statistic.
    NumericAggregated,
}

impl MetricBodySchema {
    pub open spec fn of(b: u8) -> Option<MetricBodySchema> {
        match b {
            1 => Some(MetricBodySchema::Bool),
            2 => Some(MetricBodySchema::Numeric),
            3 => Some(MetricBodySchema::Discrete),
            4 => Some(MetricBodySchema::String),
            5 => Some(MetricBodySchema::Wstring),
            6 => Some(MetricBodySchema::NumericAggregated),
            _ => None,
        }
    }

    pub fn from_byte(b: u8) -> (r: Option<Self>)
        ensures
            r == MetricBodySchema::of(b),
    {
        match b {
            1 => Some(MetricBodySchema::Bool),
            2 => Some(MetricBodySchema::Numeric),
            3 => Some(MetricBodySchema::Discrete),
            4 => Some(MetricBodySchema::String),
            5 => Some(MetricBodySchema::Wstring),
            6 => Some(MetricBodySchema::NumericAggregated),
            _ => None,
        }
    }
}

/// One sample of an aggregate batch.
#[derive(Debug, PartialEq, Eq)]
pub enum MetricAggregateSample {
    Bool(bool),
    Numeric(Lreal),
    Discrete(Vec<u8>),
    String(String),
    Wstring(String),
    /// The statistics of `stat_mask`, in the order of their bits.
    NumericAggregated { stat_mask: u8, values: Vec<Lreal> },
}

pub enum MetricAggregateSampleView {
    Bool(bool),
    Numeric(Lreal),
    Discrete(Seq<u8>),
    String(Seq<char>),
    Wstring(Seq<char>),
    NumericAggregated { stat_mask: u8, values: Seq<Lreal> },
}

impl View for MetricAggregateSample {
    type V = MetricAggregateSampleView;

    open spec fn view(&self) -> MetricAggregateSampleView {
        match *self {
            MetricAggregateSample::Bool(b) => MetricAggregateSampleView::Bool(b),
            MetricAggregateSample::Numeric(x) => MetricAggregateSampleView::Numeric(x),
            MetricAggregateSample::Discrete(b) => MetricAggregateSampleView::Discrete(b@),
            MetricAggregateSample::String(s) => MetricAggregateSampleView::String(s@),
            MetricAggregateSample::Wstring(s) => MetricAggregateSampleView::Wstring(s@),
            MetricAggregateSample::NumericAggregated { stat_mask, values } => {
                MetricAggregateSampleView::NumericAggregated { stat_mask, values: values@ }
            },
        }
    }
}

/// A decoded diagnostic event.
#[allow(inconsistent_fields)]
#[derive(Debug, PartialEq, Eq)]
pub enum DiagEvent {
    /// The value of the exceed counter.
    ExceedCounter { value: u32 },
    /// The exceed counter was written.
    ExceedReset,
    /// The counters of a task.
    TaskStats {
        task_port: u16,
        type_marker: u16,
        cycle_counter: u16,
        cpu_ticks_100ns: u32,
        exec_ticks_100ns: u32,
    },
    /// Usage and latency of the realtime system.
    RtUsage { peak_latency_us: u32, system_latency_us: u32, cpu_percent: u32 },
    /// The cycles of one task in one window.
    TaskDiagBatch {
        task_port: u16,
        task_name: String,
        task_obj_id: u32,
        window_ms: u16,
        cycle_count_start: u32,
        cycle_count_end: u32,
        dc_time_start: i64,
        dc_time_end: i64,
        exec_time_min_us: u32,
        exec_time_max_us: u32,
        exec_time_avg_us: u32,
        cycle_exceed_count: u32,
        rt_violation_count: u32,
        samples: Vec<DiagSample>,
    },
    /// Metrics announced and sampled in one window.
    MetricBatch {
        window_ms: u16,
        cycle_count: u32,
        dc_time_start: i64,
        dc_time_end: i64,
        descriptors: Vec<MetricDescriptor>,
        samples: Vec<MetricSample>,
    },
    /// The samples of one metric in one window.
    MetricAggregateBatch {
        metric_id: u32,
        task_index: u8,
        flags: u8,
        body_schema: MetricBodySchema,
        sample_size: u32,
        stat_mask: u8,
        cycle_count_start: u32,
        cycle_count_end: u32,
        dc_time_start: i64,
        dc_time_end: i64,
        name: String,
        unit: String,
        trace_id: Option<[u8; 16]>,
        span_id: Option<[u8; 8]>,
        samples: Vec<MetricAggregateSample>,
        /// One for each sample, from `cycle_count_start` on.
        sample_cycle_offsets: Option<Vec<u16>>,
    },
}

#[allow(inconsistent_fields)]
pub enum DiagEventView {
    ExceedCounter { value: u32 },
    ExceedReset,
    TaskStats {
        task_port: u16,
        type_marker: u16,
        cycle_counter: u16,
        cpu_ticks_100ns: u32,
        exec_ticks_100ns: u32,
    },
    RtUsage { peak_latency_us: u32, system_latency_us: u32, cpu_percent: u32 },
    TaskDiagBatch {
        task_port: u16,
        task_name: Seq<char>,
        task_obj_id: u32,
        window_ms: u16,
        cycle_count_start: u32,
        cycle_count_end: u32,
        dc_time_start: i64,
        dc_time_end: i64,
        exec_time_min_us: u32,
        exec_time_max_us: u32,
        exec_time_avg_us: u32,
        cycle_exceed_count: u32,
        rt_violation_count: u32,
        samples: Seq<DiagSample>,
    },
    MetricBatch {
        window_ms: u16,
        cycle_count: u32,
        dc_time_start: i64,
        dc_time_end: i64,
        descriptors: Seq<MetricDescriptorView>,
        samples: Seq<MetricSample>,
    },
    MetricAggregateBatch {
        metric_id: u32,
        task_index: u8,
        flags: u8,
        body_schema: MetricBodySchema,
        sample_size: u32,
        stat_mask: u8,
        cycle_count_start: u32,
        cycle_count_end: u32,
        dc_time_start: i64,
        dc_time_end: i64,
        name: Seq<char>,
        unit: Seq<char>,
        trace_id: Option<Seq<u8>>,
        span_id: Option<Seq<u8>>,
        samples: Seq<MetricAggregateSampleView>,
        sample_cycle_offsets: Option<Seq<u16>>,
    },
}

impl View for DiagEvent {
    type V = DiagEventView;

    open spec fn view(&self) -> DiagEventView {
        match *self {
            DiagEvent::ExceedCounter { value } => DiagEventView::ExceedCounter { value },
            DiagEvent::ExceedReset => DiagEventView::ExceedReset,
            DiagEvent::TaskStats { task_port, type_marker, cycle_counter, cpu_ticks_100ns, exec_ticks_100ns } => {
                DiagEventView::TaskStats { task_port, type_marker, cycle_counter, cpu_ticks_100ns, exec_ticks_100ns }
            },
            DiagEvent::RtUsage { peak_latency_us, system_latency_us, cpu_percent } => {
                DiagEventView::RtUsage { peak_latency_us, system_latency_us, cpu_percent }
            },
            DiagEvent::TaskDiagBatch {
                task_port,
                task_name,
                task_obj_id,
                window_ms,
                cycle_count_start,
                cycle_count_end,
                dc_time_start,
                dc_time_end,
                exec_time_min_us,
                exec_time_max_us,
                exec_time_avg_us,
                cycle_exceed_count,
                rt_violation_count,
                samples,
            } => DiagEventView::TaskDiagBatch {
                task_port,
                task_name: task_name@,
                task_obj_id,
                window_ms,
                cycle_count_start,
                cycle_count_end,
                dc_time_start,
                dc_time_end,
                exec_time_min_us,
                exec_time_max_us,
                exec_time_avg_us,
                cycle_exceed_count,
                rt_violation_count,
                samples: samples@,
            },
            DiagEvent::MetricBatch { window_ms, cycle_count, dc_time_start, dc_time_end, descriptors, samples } => {
                DiagEventView::MetricBatch {
                    window_ms,
                    cycle_count,
                    dc_time_start,
                    dc_time_end,
                    descriptors: descriptors@.map_values(|d: MetricDescriptor| d@),
                    samples: samples@,
                }
            },
            DiagEvent::MetricAggregateBatch {
                metric_id,
                task_index,
                flags,
                body_schema,
                sample_size,
                stat_mask,
                cycle_count_start,
                cycle_count_end,
                dc_time_start,
                dc_time_end,
                name,
                unit,
                trace_id,
                span_id,
                samples,
                sample_cycle_offsets,
            } => DiagEventView::MetricAggregateBatch {
                metric_id,
                task_index,
                flags,
                body_schema,
                sample_size,
                stat_mask,
                cycle_count_start,
                cycle_count_end,
                dc_time_start,
                dc_time_end,
                name: name@,
                unit: unit@,
                trace_id: match trace_id {
                    Some(t) => Some(t@),
                    None => None,
                },
                span_id: match span_id {
                    Some(t) => Some(t@),
                    None => None,
                },
                samples: samples@.map_values(|s: MetricAggregateSample| s@),
                sample_cycle_offsets: match sample_cycle_offsets {
                    Some(o) => Some(o@),
                    None => None,
                },
            },
        }
    }
}

/// The view of an optional value.
pub open spec fn viewed<T: View>(x: Option<T>) -> Option<T::V> {
    match x {
        Some(v) => Some(v@),
        None => None,
    }
}

/// A read of these is followed.
pub open spec fn known_read(ig: u32, io: u32) -> bool {
    ||| ig == IG_RT_SYSTEM && io == IO_EXCEED_COUNTER
    ||| ig == IG_RT_SYSTEM && io == IO_TASK_STATS
    ||| ig == IG_RT_USAGE && io == IO_RT_USAGE
}

/// A write of these is followed.
pub open spec fn known_write(ig: u32, io: u32) -> bool {
    ig == IG_RT_SYSTEM && io == IO_EXCEED_COUNTER
}

/// What is kept of a request, with its invoke id, if it is followed.
pub open spec fn request_of(h: AmsHeaderView, p: Seq<u8>) -> Option<(u32, PendingRequest)> {
    if h.state_flags == ADS_STATE_REQUEST && p.len() >= 12 && ((h.command_id == ADS_CMD_READ && known_read(
        u32_at(p, 0),
        u32_at(p, 4),
    )) || (h.command_id == ADS_CMD_WRITE && known_write(u32_at(p, 0), u32_at(p, 4)))) {
        Some(
            (
                h.invoke_id,
                PendingRequest {
                    command_id: h.command_id,
                    index_group: u32_at(p, 0),
                    index_offset: u32_at(p, 4),
                    size: u32_at(p, 8),
                    target_port: h.target_port,
                },
            ),
        )
    } else {
        None
    }
}

/// What a read response says: a result of zero, a length, and that many bytes, as many as the
/// polled value has.
pub open spec fn read_response_of(p: Seq<u8>, req: PendingRequest) -> Option<DiagEventView> {
    if p.len() < 8 || u32_at(p, 0) != 0 || p.len() < 8 + u32_at(p, 4) {
        None
    } else if req.index_group == IG_RT_SYSTEM && req.index_offset == IO_EXCEED_COUNTER && u32_at(p, 4)
        == EXCEED_COUNTER_LEN {
        Some(DiagEventView::ExceedCounter { value: u32_at(p, 8) })
    } else if req.index_group == IG_RT_SYSTEM && req.index_offset == IO_TASK_STATS && u32_at(p, 4)
        == TASK_STATS_LEN {
        Some(
            DiagEventView::TaskStats {
                task_port: req.target_port,
                type_marker: u16_at(p, 10),
                cycle_counter: u16_at(p, 8),
                cpu_ticks_100ns: u32_at(p, 12),
                exec_ticks_100ns: u32_at(p, 16),
            },
        )
    } else if req.index_group == IG_RT_USAGE && req.index_offset == IO_RT_USAGE && u32_at(p, 4) == RT_USAGE_LEN {
        Some(
            DiagEventView::RtUsage {
                peak_latency_us: u32_at(p, 12),
                system_latency_us: u32_at(p, 16),
                cpu_percent: u32_at(p, 24),
            },
        )
    } else {
        None
    }
}

/// Whether a response carries its result and neither its header nor its result reports an error.
pub open spec fn answers_without_error(h: AmsHeaderView, p: Seq<u8>) -> bool {
    h.error_code == 0 && p.len() >= 4 && u32_at(p, 0) == 0
}

/// What a response to `req` says: nothing when it reports an error.
pub open spec fn response_of(h: AmsHeaderView, p: Seq<u8>, req: PendingRequest) -> Option<DiagEventView> {
    if h.state_flags & ADS_STATE_RESPONSE_MASK == 0 || !answers_without_error(h, p) {
        None
    } else if req.command_id == ADS_CMD_READ {
        read_response_of(p, req)
    } else if req.command_id == ADS_CMD_WRITE && known_write(req.index_group, req.index_offset) {
        Some(DiagEventView::ExceedReset)
    } else {
        None
    }
}

/// What a write request says by itself.
pub open spec fn write_of(h: AmsHeaderView, p: Seq<u8>) -> Option<DiagEventView> {
    if h.state_flags == ADS_STATE_REQUEST && h.command_id == ADS_CMD_WRITE && p.len() >= 12 && known_write(
        u32_at(p, 0),
        u32_at(p, 4),
    ) {
        Some(DiagEventView::ExceedReset)
    } else {
        None
    }
}

/// A write that is followed is a reset both by its request and by a response without an error.
pub proof fn law_write_known_from_either_side(h: AmsHeaderView, p: Seq<u8>, answer: AmsHeaderView, q: Seq<u8>)
    requires
        h.command_id == ADS_CMD_WRITE,
        answer.state_flags & ADS_STATE_RESPONSE_MASK != 0,
        answers_without_error(answer, q),
    ensures
        request_of(h, p) is Some <==> write_of(h, p) is Some,
        request_of(h, p) matches Some((_, req)) ==> response_of(answer, q, req) == write_of(h, p),
{
}

/// A response that reports an error says nothing, whatever it answers.
pub proof fn law_errors_say_nothing(h: AmsHeaderView, p: Seq<u8>, req: PendingRequest)
    requires
        h.error_code != 0 || (p.len() >= 4 && u32_at(p, 0) != 0),
    ensures
        response_of(h, p, req) is None,
{
}

/// A followed request never decodes as a response, and a response is never followed.
pub proof fn law_requests_are_not_responses(h: AmsHeaderView, p: Seq<u8>, req: PendingRequest)
    ensures
        request_of(h, p) is Some ==> response_of(h, p, req) is None,
{
    assert(4u16 & 1u16 == 0) by (bit_vector);
}

fn is_known_read(ig: u32, io: u32) -> (r: bool)
    ensures
        r == known_read(ig, io),
{
    (ig == IG_RT_SYSTEM && io == IO_EXCEED_COUNTER) || (ig == IG_RT_SYSTEM && io == IO_TASK_STATS) || (ig
        == IG_RT_USAGE && io == IO_RT_USAGE)
}

fn is_known_write(ig: u32, io: u32) -> (r: bool)
    ensures
        r == known_write(ig, io),
{
    ig == IG_RT_SYSTEM && io == IO_EXCEED_COUNTER
}

/// Decodes a request that is followed; gives its invoke id and what to keep of it.
pub fn decode_request(header: &AmsHeader, payload: &[u8]) -> (r: Option<(u32, PendingRequest)>)
    ensures
        r == request_of(header@, payload@),
{
    if header.state_flags != ADS_STATE_REQUEST {
        return None;
    }
    if header.command_id != ADS_CMD_READ && header.command_id != ADS_CMD_WRITE {
        return None;
    }
    if payload.len() < 12 {
        return None;
    }
    let ig: u32 = get_u32(payload, 0);
    let io: u32 = get_u32(payload, 4);
    let size: u32 = get_u32(payload, 8);
    let known = if header.command_id == ADS_CMD_READ {
        is_known_read(ig, io)
    } else {
        is_known_write(ig, io)
    };
    if !known {
        return None;
    }
    Some(
        (
            header.invoke_id,
            PendingRequest {
                command_id: header.command_id,
                index_group: ig,
                index_offset: io,
                size,
                target_port: header.target_port,
            },
        ),
    )
}

fn decode_read_response(payload: &[u8], req: &PendingRequest) -> (r: Option<DiagEvent>)
    ensures
        viewed(r) == read_response_of(payload@, *req),
{
    if payload.len() < 8 {
        return None;
    }
    let result: u32 = get_u32(payload, 0);
    let rlen: u32 = get_u32(payload, 4);
    if result != 0 {
        return None;
    }
    if (payload.len() - 8) < rlen as usize {
        return None;
    }
    if req.index_group == IG_RT_SYSTEM && req.index_offset == IO_EXCEED_COUNTER && rlen as usize == EXCEED_COUNTER_LEN {
        Some(DiagEvent::ExceedCounter { value: get_u32(payload, 8) })
    } else if req.index_group == IG_RT_SYSTEM && req.index_offset == IO_TASK_STATS && rlen as usize == TASK_STATS_LEN {
        Some(
            DiagEvent::TaskStats {
                task_port: req.target_port,
                type_marker: get_u16(payload, 10),
                cycle_counter: get_u16(payload, 8),
                cpu_ticks_100ns: get_u32(payload, 12),
                exec_ticks_100ns: get_u32(payload, 16),
            },
        )
    } else if req.index_group == IG_RT_USAGE && req.index_offset == IO_RT_USAGE && rlen as usize == RT_USAGE_LEN {
        Some(
            DiagEvent::RtUsage {
                peak_latency_us: get_u32(payload, 12),
                system_latency_us: get_u32(payload, 16),
                cpu_percent: get_u32(payload, 24),
            },
        )
    } else {
        None
    }
}

/// Decodes the response to `req`; gives nothing when the response is malformed or reports an
/// error.
pub fn decode_response(header: &AmsHeader, payload: &[u8], req: &PendingRequest) -> (r: Option<DiagEvent>)
    ensures
        viewed(r) == response_of(header@, payload@, *req),
{
    if header.state_flags & ADS_STATE_RESPONSE_MASK == 0 || header.error_code != 0 {
        return None;
    }
    if payload.len() < 4 || get_u32(payload, 0) != 0 {
        return None;
    }
    if req.command_id == ADS_CMD_READ {
        decode_read_response(payload, req)
    } else if req.command_id == ADS_CMD_WRITE && is_known_write(req.index_group, req.index_offset) {
        Some(DiagEvent::ExceedReset)
    } else {
        None
    }
}

/// Decodes a write request by itself.
pub fn decode_write_from_request(header: &AmsHeader, payload: &[u8]) -> (r: Option<DiagEvent>)
    ensures
        viewed(r) == write_of(header@, payload@),
{
    if header.state_flags != ADS_STATE_REQUEST || header.command_id != ADS_CMD_WRITE || payload.len() < 12 {
        return None;
    }
    if is_known_write(get_u32(payload, 0), get_u32(payload, 4)) {
        Some(DiagEvent::ExceedReset)
    } else {
        None
    }
}

} // verus!
